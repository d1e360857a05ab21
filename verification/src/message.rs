//! What passes between the transport and the wire: the request a client
//! sends, the answer a session gives, the Stream that arrived and the error
//! that says why none did.

use vstd::prelude::*;
use vstd::string::*;

verus! {

/// A failure, what it was and whether the same call may succeed later.
#[derive(Debug, PartialEq, Eq)]
pub struct TransportError {
    pub message: String,
    pub retryable: bool,
}

/// What a [`TransportError`] says.
#[verifier::ext_equal]
pub struct TransportErrorView {
    pub message: Seq<char>,
    pub retryable: bool,
}

impl View for TransportError {
    type V = TransportErrorView;

    open spec fn view(&self) -> TransportErrorView {
        TransportErrorView { message: self.message@, retryable: self.retryable }
    }
}

impl TransportError {
    /// A failure that the same call would meet again.
    pub fn permanent(message: String) -> (error: Self)
        ensures
            error@ == (TransportErrorView { message: message@, retryable: false }),
    {
        Self { message, retryable: false }
    }
}

/// One Stream, with the URI it came from.
#[derive(Debug, PartialEq, Eq)]
pub struct Arrived {
    pub origin_uri: String,
    pub bytes: Vec<u8>,
}

/// What an [`Arrived`] holds.
#[verifier::ext_equal]
pub struct ArrivedView {
    pub origin_uri: Seq<char>,
    pub bytes: Seq<u8>,
}

impl View for Arrived {
    type V = ArrivedView;

    open spec fn view(&self) -> ArrivedView {
        ArrivedView { origin_uri: self.origin_uri@, bytes: self.bytes@ }
    }
}

impl Arrived {
    /// The Stream `bytes`, come from `origin_uri`.
    pub fn new(origin_uri: String, bytes: Vec<u8>) -> (arrived: Self)
        ensures
            arrived@ == (ArrivedView { origin_uri: origin_uri@, bytes: bytes@ }),
    {
        Self { origin_uri, bytes }
    }
}

impl Clone for Arrived {
    fn clone(&self) -> (copy: Self)
        ensures
            copy@ == self@,
    {
        Self { origin_uri: self.origin_uri.clone(), bytes: self.bytes.clone() }
    }
}

/// One HTTP request.
#[derive(Debug, PartialEq, Eq)]
pub struct Request {
    pub method: String,
    pub path: String,
    pub headers: Vec<(String, String)>,
    pub body: Vec<u8>,
}

/// What a [`Request`] says.
#[verifier::ext_equal]
pub struct RequestView {
    pub method: Seq<char>,
    pub path: Seq<char>,
    pub headers: Seq<(Seq<char>, Seq<char>)>,
    pub body: Seq<u8>,
}

impl View for Request {
    type V = RequestView;

    open spec fn view(&self) -> RequestView {
        RequestView {
            method: self.method@,
            path: self.path@,
            headers: self.headers@.map_values(|header: (String, String)| (header.0@, header.1@)),
            body: self.body@,
        }
    }
}

/// The answer to one request: its status, and where it is an error the
/// detail that the error states.
#[derive(Debug, PartialEq, Eq)]
pub struct Response {
    pub status: u16,
    pub detail: Option<String>,
}

/// What a [`Response`] says.
#[verifier::ext_equal]
pub struct ResponseView {
    pub status: u16,
    pub detail: Option<Seq<char>>,
}

/// The text of an optional string.
pub open spec fn text_of(s: Option<String>) -> Option<Seq<char>> {
    match s {
        Some(s) => Some(s@),
        None => None,
    }
}

/// The text of an optional string slice.
pub open spec fn slice_of(s: Option<&str>) -> Option<Seq<char>> {
    match s {
        Some(s) => Some(s@),
        None => None,
    }
}

impl View for Response {
    type V = ResponseView;

    open spec fn view(&self) -> ResponseView {
        ResponseView { status: self.status, detail: text_of(self.detail) }
    }
}

/// Which ways a transport carries Streams.
#[derive(Clone, Copy, Debug, PartialEq, Eq, Structural)]
pub struct Directions {
    pub send: bool,
    pub receive: bool,
}

impl Directions {
    /// Streams are sent.
    pub fn sends(&self) -> (yes: bool)
        ensures
            yes == self.send,
    {
        self.send
    }

    /// Streams are received.
    pub fn receives(&self) -> (yes: bool)
        ensures
            yes == self.receive,
    {
        self.receive
    }
}

/// What is seen of a request is what it holds: the method, the path and the
/// body as they are, and each header under its name, in their order.
pub proof fn law_a_request_is_seen_as_it_is(request: Request, i: int)
    ensures
        request@.method == request.method@,
        request@.path == request.path@,
        request@.body == request.body@,
        request@.headers.len() == request.headers@.len(),
        0 <= i < request.headers@.len() ==> request@.headers[i].0 == request.headers@[i].0@,
        0 <= i < request.headers@.len() ==> request@.headers[i].1 == request.headers@[i].1@,
{
}

/// What is seen of an answer is what it holds.
pub proof fn law_a_response_is_seen_as_it_is(response: Response)
    ensures
        response@.status == response.status,
        response@.detail is Some <==> response.detail is Some,
        response.detail is Some ==> response@.detail->0 == response.detail->0@,
{
}

/// What is seen of a Stream is its origin and its bytes.
pub proof fn law_a_stream_is_seen_as_it_is(arrived: Arrived)
    ensures
        arrived@.origin_uri == arrived.origin_uri@,
        arrived@.bytes == arrived.bytes@,
{
}

/// What is seen of a failure is its message and whether it may be retried.
pub proof fn law_a_failure_is_seen_as_it_is(error: TransportError)
    ensures
        error@.message == error.message@,
        error@.retryable == error.retryable,
{
}

/// An optional text is seen where there is one, as it is.
pub proof fn law_an_optional_text_is_seen_as_it_is(owned: Option<String>, slice: Option<&str>)
    ensures
        text_of(owned) is Some <==> owned is Some,
        owned is Some ==> text_of(owned)->0 == owned->0@,
        slice_of(slice) is Some <==> slice is Some,
        slice is Some ==> slice_of(slice)->0 == slice->0@,
{
}

} // verus!
