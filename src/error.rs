use vstd::prelude::*;

verus! {

/// What went wrong while creating a buffer.
#[derive(Debug, Clone, Copy, PartialEq, Eq, Structural)]
pub enum ErrorKind {
    /// The requested capacity is zero, not a power of two, or not a multiple
    /// of the minimum length.
    InvalidLength,
    /// No contiguous window of twice the capacity can be addressed.
    AddressReservationFailed,
}

/// Error returned when a buffer cannot be created; carries a readable message.
#[derive(Debug)]
pub struct BufferError {
    kind: ErrorKind,
    msg: String,
}

impl BufferError {
    /// The kind of failure this error reports.
    pub closed spec fn error_kind(&self) -> ErrorKind {
        self.kind
    }

    /// Builds an error of the given kind with a message.
    pub fn new(kind: ErrorKind, msg: &str) -> (r: BufferError)
        ensures
            r.error_kind() == kind,
            r.message_view() == msg@,
    {
        BufferError { kind, msg: msg.to_owned() }
    }

    /// The message, as a sequence of characters.
    pub closed spec fn message_view(&self) -> Seq<char> {
        self.msg@
    }

    pub fn kind(&self) -> (r: ErrorKind)
        ensures
            r == self.error_kind(),
    {
        self.kind
    }

    /// The human-readable message.
    pub fn message(&self) -> (r: &str)
        ensures
            r@ == self.message_view(),
    {
        self.msg.as_str()
    }
}

} // verus!
