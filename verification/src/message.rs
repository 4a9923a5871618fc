//! The envelopes that cross the socket and the failure value that can ride
//! inside a response.

use vstd::prelude::*;

verus! {

/// `std::io::Error`: the failure of a transport operation, carried through
/// as it is.
#[verifier::external_type_specification]
#[verifier::external_body]
pub struct ExIoError(std::io::Error);

/// The `Debug` text of a `std::io::Error`, as `format!` writes it. The text
/// depends on the error and on the platform, so nothing is claimed of it.
#[verifier::external_body]
fn debug_text(error: &std::io::Error) -> (text: String) {
    format!("{:?}", error)
}

/// The tag of a message. It carries nothing else.
#[derive(Clone, Copy, Debug, PartialEq, Eq, Structural)]
pub enum SocketMessage {
    Ping,
    Pong,
}

impl View for SocketMessage {
    type V = SocketMessage;

    open spec fn view(&self) -> SocketMessage {
        *self
    }
}

/// The failure kinds of the exchange. A value of this type is either the
/// outcome of an operation that failed, or a payload inside a response.
#[derive(Clone, Debug, PartialEq, Eq)]
pub enum CborSocketExampleError {
    /// Something unexpected or invalid, such as a bad command line.
    StuffBroke,
    /// A value could not be written to or read from its wire form.
    CborSerializationError,
    /// A transport operation failed; `message` describes the condition.
    IoError { message: String },
}

/// What a `CborSocketExampleError` is, with its text as a sequence of characters.
pub enum ErrorView {
    StuffBroke,
    CborSerializationError,
    IoError { message: Seq<char> },
}

impl View for CborSocketExampleError {
    type V = ErrorView;

    open spec fn view(&self) -> ErrorView {
        match self {
            CborSocketExampleError::StuffBroke => ErrorView::StuffBroke,
            CborSocketExampleError::CborSerializationError => ErrorView::CborSerializationError,
            CborSocketExampleError::IoError { message } => ErrorView::IoError {
                message: message@,
            },
        }
    }
}

impl CborSocketExampleError {
    /// The text that describes the failure kind.
    pub fn describe(&self) -> (text: String)
        ensures
            self is StuffBroke ==> text@ == "something bad happened"@,
            self is CborSerializationError ==> text@ == "cbor serialization went wrong"@,
            self is IoError ==> text@ == "there was an io error"@,
    {
        match self {
            CborSocketExampleError::StuffBroke => "something bad happened".to_string(),
            CborSocketExampleError::CborSerializationError => {
                "cbor serialization went wrong".to_string()
            },
            CborSocketExampleError::IoError { .. } => "there was an io error".to_string(),
        }
    }

    /// The failure that stands for a transport operation that went wrong,
    /// with the description of the underlying condition.
    pub fn from_io(description: String) -> (error: Self)
        ensures
            error@ == (ErrorView::IoError { message: description@ }),
    {
        CborSocketExampleError::IoError { message: description }
    }

    /// The failure that stands for `error`: always an I/O failure, described
    /// by the error's `Debug` text.
    pub fn from_io_error(error: &std::io::Error) -> (failure: Self)
        ensures
            failure is IoError,
    {
        CborSocketExampleError::from_io(debug_text(error))
    }
}

/// The envelope a client sends: one message.
#[derive(Clone, Copy, Debug, PartialEq, Eq, Structural)]
pub struct SocketRequest {
    pub message: SocketMessage,
}

impl View for SocketRequest {
    type V = SocketRequest;

    open spec fn view(&self) -> SocketRequest {
        *self
    }
}

/// The envelope a handler sends back: one message, and the failure that the
/// application reports beside it, if any.
#[derive(Clone, Debug, PartialEq, Eq)]
pub struct SocketResponse {
    pub message: SocketMessage,
    pub error: Option<CborSocketExampleError>,
}

/// What a `SocketResponse` is.
pub struct ResponseView {
    pub message: SocketMessage,
    pub error: Option<ErrorView>,
}

impl View for SocketResponse {
    type V = ResponseView;

    open spec fn view(&self) -> ResponseView {
        ResponseView {
            message: self.message,
            error: match self.error {
                Some(e) => Some(e@),
                None => None,
            },
        }
    }
}

} // verus!
