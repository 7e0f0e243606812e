use vstd::prelude::*;

verus! {

/// The error taxonomy of the queue library.
///
/// `ConnectionError` and `TimeoutError` are transient transport failures,
/// `EncodeError` and `DecodeError` report a malformed payload, and
/// `NotFoundError` reports a queried key or field that was never written.
/// An empty queue is not an error: dequeue reports it as `None`.
#[derive(Clone, Copy, Debug, PartialEq, Eq, Structural)]
pub enum QueueError {
    ConnectionError,
    TimeoutError,
    EncodeError,
    DecodeError,
    NotFoundError,
}

impl QueueError {
    /// A short text for the error, usable where a caller wants to print it.
    pub fn message(&self) -> (r: &'static str)
        ensures
            r@ == self.spec_message(),
    {
        match self {
            QueueError::ConnectionError => "connection error",
            QueueError::TimeoutError => "timeout error",
            QueueError::DecodeError => "decode error",
            QueueError::EncodeError => "encode error",
            QueueError::NotFoundError => "not found",
        }
    }

    pub open spec fn spec_message(&self) -> Seq<char> {
        match self {
            QueueError::ConnectionError => "connection error"@,
            QueueError::TimeoutError => "timeout error"@,
            QueueError::DecodeError => "decode error"@,
            QueueError::EncodeError => "encode error"@,
            QueueError::NotFoundError => "not found"@,
        }
    }

    /// Whether the error is a transient transport failure, after which a
    /// consumer should reconnect rather than give up.
    pub fn is_transport(&self) -> (r: bool)
        ensures
            r == self.spec_is_transport(),
    {
        match self {
            QueueError::ConnectionError => true,
            QueueError::TimeoutError => true,
            _ => false,
        }
    }

    pub open spec fn spec_is_transport(&self) -> bool {
        self is ConnectionError || self is TimeoutError
    }
}

} // verus!
