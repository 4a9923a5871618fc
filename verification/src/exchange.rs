//! One exchange on a connection, seen from each end: the handler reads one
//! request and answers it; the client sends one request and reads the answer.
//! Both work on the bytes that have arrived so far, so that whoever owns the
//! stream can read until an envelope is complete.

use vstd::prelude::*;
use crate::message::{SocketMessage, CborSocketExampleError, ErrorView, SocketRequest,
    SocketResponse, ResponseView};
use crate::codec::{Parse, Decoded, parse_request, parse_response, request_bytes, response_bytes,
    encode_request, encode_response, scan_request, scan_response};
use crate::round_trip::{lemma_request_round_trip, lemma_response_round_trip};

verus! {

/// The seconds a client lets pass between sending and reading.
pub const PAUSE_SECONDS: u64 = 3;

/// Where an end of the connection stands after the bytes received so far.
#[derive(Clone, Debug, PartialEq, Eq)]
pub enum Progress<T> {
    /// The envelope is not complete and the stream is still open: read on.
    Wait,
    /// The envelope is complete; this is what follows from it.
    Ready(T),
    /// No envelope will come of these bytes.
    Fail(CborSocketExampleError),
}

/// The request that a client sends.
pub open spec fn client_request() -> SocketRequest {
    SocketRequest { message: SocketMessage::Ping }
}

/// The response that a handler gives to `request`: always `Pong`, and always
/// with the generic failure beside it.
pub open spec fn reply_to(request: SocketRequest) -> ResponseView {
    ResponseView { message: SocketMessage::Pong, error: Some(ErrorView::StuffBroke) }
}

/// The response to `request`.
pub fn respond(request: &SocketRequest) -> (response: SocketResponse)
    ensures
        response@ == reply_to(*request),
{
    SocketResponse {
        message: SocketMessage::Pong,
        error: Some(CborSocketExampleError::StuffBroke),
    }
}

/// The handler's side of an exchange. `received` holds the bytes read from
/// the connection so far, and `closed` says whether the stream has ended.
/// Once a whole request stands at the front, the result holds the bytes of
/// the response to send. A request cut short by the end of the stream, or
/// bytes that start no request, are a codec failure, and nothing is sent.
pub fn receive_message(received: &[u8], closed: bool) -> (step: Progress<Vec<u8>>)
    ensures
        match parse_request(received@) {
            Parse::Done { value, end } => step matches Progress::Ready(reply) && reply@
                == response_bytes(reply_to(value)),
            Parse::Short => if closed {
                step matches Progress::Fail(e) && e@ == ErrorView::CborSerializationError
            } else {
                step is Wait
            },
            Parse::Bad => step matches Progress::Fail(e) && e@
                == ErrorView::CborSerializationError,
        },
{
    match scan_request(received) {
        Decoded::Complete(request, _) => {
            let response = respond(&request);
            Progress::Ready(encode_response(&response))
        },
        Decoded::Incomplete => {
            if closed {
                Progress::Fail(CborSocketExampleError::CborSerializationError)
            } else {
                Progress::Wait
            }
        },
        Decoded::Malformed => Progress::Fail(CborSocketExampleError::CborSerializationError),
    }
}

/// The bytes that a client sends: the wire form of a `Ping` request.
pub fn send_message() -> (out: Vec<u8>)
    ensures
        out@ == request_bytes(client_request()),
{
    encode_request(&SocketRequest { message: SocketMessage::Ping })
}

/// The client's side of an exchange after sending. `received` holds the bytes
/// read from the connection so far, and `closed` says whether the stream has
/// ended. Once a whole response stands at the front, the result holds it, with
/// or without a failure inside. A response cut short by the end of the
/// stream, or bytes that start no response, are a codec failure.
pub fn receive_response(received: &[u8], closed: bool) -> (step: Progress<SocketResponse>)
    ensures
        match parse_response(received@) {
            Parse::Done { value, end } => step matches Progress::Ready(response) && response@
                == value,
            Parse::Short => if closed {
                step matches Progress::Fail(e) && e@ == ErrorView::CborSerializationError
            } else {
                step is Wait
            },
            Parse::Bad => step matches Progress::Fail(e) && e@
                == ErrorView::CborSerializationError,
        },
{
    match scan_response(received) {
        Decoded::Complete(response, _) => Progress::Ready(response),
        Decoded::Incomplete => {
            if closed {
                Progress::Fail(CborSocketExampleError::CborSerializationError)
            } else {
                Progress::Wait
            }
        },
        Decoded::Malformed => Progress::Fail(CborSocketExampleError::CborSerializationError),
    }
}

/// An exchange is complete: whatever request a client sends, the handler
/// reads that request, and the client reads from the handler's bytes a
/// response with the message `Pong` and the generic failure, and nothing is
/// left over on either side.
pub proof fn lemma_exchange_complete(request: SocketRequest)
    ensures
        parse_request(request_bytes(request)) == (Parse::Done {
            value: request,
            end: request_bytes(request).len() as int,
        }),
        parse_response(response_bytes(reply_to(request))) == (Parse::Done {
            value: ResponseView {
                message: SocketMessage::Pong,
                error: Some(ErrorView::StuffBroke),
            },
            end: response_bytes(reply_to(request)).len() as int,
        }),
{
    lemma_request_round_trip(request, Seq::empty());
    assert(request_bytes(request) + Seq::<u8>::empty() =~= request_bytes(request));
    let reply = response_bytes(reply_to(request));
    lemma_response_round_trip(reply_to(request), Seq::empty());
    assert(reply + Seq::<u8>::empty() =~= reply);
}

} // verus!
