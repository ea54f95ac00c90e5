//! The decisions a connection makes: when a request head has been read,
//! how the answer is framed, and what is sent when framing fails.

use vstd::prelude::*;
use vstd::utf8::*;

use crate::request::{
    accepts_spec, head_end, keep_alive_spec, parse_request, Method, Request, RequestError,
    RequestModel,
};
use crate::text::printable;
use crate::response::{
    header_value_ok, http_date, http_message, should_gzip, gzip_encoded, gzip_fails, encoding_view,
    Response, HTTP_DATE_LIMIT,
};

verus! {

/// Largest request head read from a client, in bytes.
pub const MAX_REQUEST_SIZE: usize = 8 * 1024;

/// Where reading a request head stands after a chunk arrived.
#[derive(Debug, Clone, Copy, PartialEq, Eq, Structural)]
pub enum ReadProgress {
    /// The head is complete: the buffer holds `"\r\n\r\n"`.
    Complete,
    /// More bytes are needed.
    NeedMore,
    /// The chunk would take the buffer past [`MAX_REQUEST_SIZE`].
    TooLarge,
    /// The client closed the connection in the middle of a request.
    ClosedEarly,
    /// The client closed the connection between requests.
    Closed,
}

/// Takes in a chunk read from the client (an empty chunk meaning the client
/// closed the connection) and says where reading stands.
pub fn absorb_chunk(buffer: &mut Vec<u8>, chunk: &[u8]) -> (res: ReadProgress)
    ensures
        old(buffer)@.len() <= MAX_REQUEST_SIZE ==> final(buffer)@.len() <= MAX_REQUEST_SIZE,
        chunk@.len() == 0 ==> final(buffer)@ == old(buffer)@ && res == (if old(buffer)@.len()
            == 0 {
            ReadProgress::Closed
        } else {
            ReadProgress::ClosedEarly
        }),
        chunk@.len() > 0 && old(buffer)@.len() + chunk@.len() > MAX_REQUEST_SIZE ==> final(buffer)@ == old(buffer)@ && res == ReadProgress::TooLarge,
        chunk@.len() > 0 && old(buffer)@.len() + chunk@.len() <= MAX_REQUEST_SIZE ==> final(buffer)@ == old(buffer)@ + chunk@ && res == (if head_end(old(buffer)@ + chunk@) is Some {
            ReadProgress::Complete
        } else {
            ReadProgress::NeedMore
        }),
{
    if chunk.len() == 0 {
        if buffer.len() == 0 {
            return ReadProgress::Closed;
        }
        return ReadProgress::ClosedEarly;
    }
    if chunk.len() > MAX_REQUEST_SIZE || buffer.len() > MAX_REQUEST_SIZE - chunk.len() {
        return ReadProgress::TooLarge;
    }
    let mut i: usize = 0;
    while i < chunk.len()
        invariant
            i <= chunk@.len(),
            buffer@ == old(buffer)@ + chunk@.subrange(0, i as int),
        decreases chunk@.len() - i,
    {
        buffer.push(chunk[i]);
        i = i + 1;
        assert(buffer@ =~= old(buffer)@ + chunk@.subrange(0, i as int));
    }
    assert(chunk@.subrange(0, chunk@.len() as int) =~= chunk@);
    match crate::request::split_head_body(buffer.as_slice()) {
        Ok(_) => ReadProgress::Complete,
        Err(_) => ReadProgress::NeedMore,
    }
}

/// The reply to a request that could not be read or could not be parsed:
/// `400 Bad Request`, after which the connection is closed.
pub fn rejection() -> (res: (Response, &'static str))
    ensures
        res.0.status == 400,
        res.0.content_type@ == "text/plain; charset=utf-8"@,
        res.0.body@ == encode_utf8("400 Bad Request"@),
        res.1@ == "close"@,
{
    (Response::bad_request(), "close")
}

/// The `Connection` header value sent back.
pub fn connection_header(keep_alive: bool) -> (res: &'static str)
    ensures
        res@ == (if keep_alive {
            "keep-alive"@
        } else {
            "close"@
        }),
{
    if keep_alive {
        "keep-alive"
    } else {
        "close"
    }
}

/// The content coding offered for the response: `gzip` when the request
/// accepts it.
pub fn response_encoding(request: &Request) -> (res: Option<&'static str>)
    ensures
        match res {
            Some(e) => e@ == "gzip"@ && accepts_spec(request@, "gzip"@),
            None => !accepts_spec(request@, "gzip"@),
        },
{
    if request.accepts_encoding("gzip") {
        Some("gzip")
    } else {
        None
    }
}

/// The response as sent for this request: without a body for `HEAD`.
pub fn finalize_response(request: &Request, response: Response) -> (res: Response)
    ensures
        res.status == response.status,
        res.content_type == response.content_type,
        request@.method == Method::Head ==> res.body@ == Seq::<u8>::empty(),
        request@.method != Method::Head ==> res.body@ == response.body@,
{
    if request.method() == Method::Head {
        response.head()
    } else {
        response
    }
}

/// The bytes sent for a response: its wire form, or, when that cannot be
/// made, a `500 Internal Server Error` that closes the connection.
pub fn response_bytes(
    response: Response,
    connection: &str,
    encoding: Option<&str>,
    unix_time: u64,
) -> (res: Vec<u8>)
    requires
        unix_time < HTTP_DATE_LIMIT,
    ensures
        printable(http_date(unix_time)),
        http_date(unix_time).len() == 29,
        ({
            let gz = should_gzip(response.body@.len(), encoding_view(encoding));
            let ok = header_value_ok(encode_utf8(connection@)) && header_value_ok(
                encode_utf8(response.content_type@),
            );
            let sent = http_message(
                response.status,
                http_date(unix_time),
                response.content_type@,
                connection@,
                if gz {
                    gzip_encoded(response.body@)
                } else {
                    response.body@
                },
                gz,
            );
            let fallback = http_message(
                500,
                http_date(unix_time),
                "text/plain; charset=utf-8"@,
                "close"@,
                encode_utf8("500 Internal Server Error"@),
                false,
            );
            &&& ok && !gz ==> res@ == sent
            &&& ok && gz && !gzip_fails(response.body@) ==> res@ == sent
            &&& ok && gz && gzip_fails(response.body@) ==> res@ == fallback
            &&& !ok ==> res@ == fallback
        }),
{
    match response.into_http_bytes(connection, encoding, unix_time) {
        Ok(bytes) => bytes,
        Err(_) => {
            let fallback = Response::internal_server_error();
            proof {
                lemma_plain_headers_ok();
            }
            match fallback.into_http_bytes("close", None, unix_time) {
                Ok(bytes) => bytes,
                Err(_) => Vec::new(),
            }
        },
    }
}

// ---------------------------------------------------------------------------
// The request loop of a connection
// ---------------------------------------------------------------------------

/// Whether a connection still takes requests.
#[derive(Debug, Clone, Copy, PartialEq, Eq, Structural)]
pub enum ConnState {
    Open,
    Closed,
}

/// What reading the next request head came to.
#[derive(Debug)]
pub enum ConnEvent {
    /// The client closed the connection between requests.
    ClientClosed,
    /// Reading failed: the client closed in the middle of a request, the
    /// head grew too large, reading timed out or the socket failed.
    ReadFailed,
    /// A complete request head (with whatever followed it in the buffer).
    Head(Vec<u8>),
}

/// What the connection does next.
#[derive(Debug)]
pub enum ConnAction {
    /// Close without answering.
    Stop,
    /// Answer with `response` and `Connection: connection`, then close;
    /// `cause` is the parse error, if parsing failed.
    Reject { response: Response, connection: &'static str, cause: Option<RequestError> },
    /// Answer `request`, sending `Connection: connection` and offering
    /// `encoding`.
    Answer { request: Request, connection: &'static str, encoding: Option<&'static str> },
}

/// An event with its bytes as a sequence.
pub enum EventModel {
    ClientClosed,
    ReadFailed,
    Head(Seq<u8>),
}

/// The kind of an action; for an answer, whether the connection stays open.
pub enum ActionKind {
    Stop,
    Reject,
    Answer(bool),
}

impl View for ConnEvent {
    type V = EventModel;

    open spec fn view(&self) -> EventModel {
        match self {
            ConnEvent::ClientClosed => EventModel::ClientClosed,
            ConnEvent::ReadFailed => EventModel::ReadFailed,
            ConnEvent::Head(b) => EventModel::Head(b@),
        }
    }
}

/// The kind of an action, given the state it leads to.
pub open spec fn action_kind(a: ConnAction, next: ConnState) -> ActionKind {
    match a {
        ConnAction::Stop => ActionKind::Stop,
        ConnAction::Reject { .. } => ActionKind::Reject,
        ConnAction::Answer { .. } => ActionKind::Answer(next == ConnState::Open),
    }
}

/// One step of the request loop: a closed connection does nothing; a clean
/// close stops; a failed read or a request that does not parse is rejected
/// and closes; a parsed request is answered, and the connection stays open
/// exactly when the request wants keep-alive.
pub open spec fn step_spec(s: ConnState, e: EventModel) -> (ConnState, ActionKind) {
    match s {
        ConnState::Closed => (ConnState::Closed, ActionKind::Stop),
        ConnState::Open => match e {
            EventModel::ClientClosed => (ConnState::Closed, ActionKind::Stop),
            EventModel::ReadFailed => (ConnState::Closed, ActionKind::Reject),
            EventModel::Head(p) => match parse_request(p) {
                Err(_) => (ConnState::Closed, ActionKind::Reject),
                Ok(r) => if keep_alive_spec(r) {
                    (ConnState::Open, ActionKind::Answer(true))
                } else {
                    (ConnState::Closed, ActionKind::Answer(false))
                },
            },
        },
    }
}

/// The actions taken for a sequence of events, starting in state `s`.
pub open spec fn trace(s: ConnState, es: Seq<EventModel>) -> Seq<ActionKind>
    decreases es.len(),
{
    if es.len() == 0 {
        seq![]
    } else {
        seq![step_spec(s, es[0]).1] + trace(step_spec(s, es[0]).0, es.drop_first())
    }
}

/// Decides what the connection does with the outcome of reading a request.
pub fn step(state: ConnState, event: ConnEvent) -> (res: (ConnState, ConnAction))
    ensures
        (res.0, action_kind(res.1, res.0)) == step_spec(state, event@),
        match res.1 {
            ConnAction::Stop => true,
            ConnAction::Reject { response, connection, cause } => {
                &&& response.status == 400
                &&& response.content_type@ == "text/plain; charset=utf-8"@
                &&& response.body@ == encode_utf8("400 Bad Request"@)
                &&& connection@ == "close"@
                &&& match event@ {
                    EventModel::Head(p) => parse_request(p) matches Err(e) && cause == Some(e),
                    _ => cause is None,
                }
            },
            ConnAction::Answer { request, connection, encoding } => {
                &&& event@ matches EventModel::Head(p) && parse_request(p) == Ok::<
                    RequestModel,
                    RequestError,
                >(request@)
                &&& connection@ == (if keep_alive_spec(request@) {
                    "keep-alive"@
                } else {
                    "close"@
                })
                &&& match encoding {
                    Some(e) => e@ == "gzip"@ && accepts_spec(request@, "gzip"@),
                    None => !accepts_spec(request@, "gzip"@),
                }
            },
        },
{
    if state == ConnState::Closed {
        return (ConnState::Closed, ConnAction::Stop);
    }
    match event {
        ConnEvent::ClientClosed => (ConnState::Closed, ConnAction::Stop),
        ConnEvent::ReadFailed => {
            let (response, connection) = rejection();
            (ConnState::Closed, ConnAction::Reject { response, connection, cause: None })
        },
        ConnEvent::Head(bytes) => match Request::new(bytes.as_slice()) {
            Err(e) => {
                let (response, connection) = rejection();
                (ConnState::Closed, ConnAction::Reject { response, connection, cause: Some(e) })
            },
            Ok(request) => {
                let keep_alive = request.wants_keep_alive();
                let connection = connection_header(keep_alive);
                let encoding = response_encoding(&request);
                let next = if keep_alive {
                    ConnState::Open
                } else {
                    ConnState::Closed
                };
                (next, ConnAction::Answer { request, connection, encoding })
            },
        },
    }
}

proof fn lemma_ascii_header_ok(s: Seq<char>)
    requires
        is_ascii_chars(s),
        forall|i: int| 0 <= i < s.len() ==> (#[trigger] s[i] as u32) >= 0x20,
    ensures
        header_value_ok(encode_utf8(s)),
{
    is_ascii_chars_encode_utf8(s);
}

proof fn lemma_plain_headers_ok()
    ensures
        header_value_ok(encode_utf8("close"@)),
        header_value_ok(encode_utf8("text/plain; charset=utf-8"@)),
{
    reveal_strlit("close");
    reveal_strlit("text/plain; charset=utf-8");
    lemma_ascii_header_ok("close"@);
    lemma_ascii_header_ok("text/plain; charset=utf-8"@);
}

} // verus!
