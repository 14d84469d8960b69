use vstd::prelude::*;

verus! {

/// What went wrong in a byte source or sink.
#[non_exhaustive]
#[derive(Debug, Copy, Clone, PartialEq, Eq, Structural)]
pub enum ErrorKind {
    NotFound,
    PermissionDenied,
    ConnectionRefused,
    ConnectionReset,
    ConnectionAborted,
    NotConnected,
    AddrInUse,
    AddrNotAvailable,
    BrokenPipe,
    AlreadyExists,
    WouldBlock,
    InvalidInput,
    InvalidData,
    TimedOut,
    WriteZero,
    Interrupted,
    Other,
    UnexpectedEof,
}

#[derive(Debug, Copy, Clone, PartialEq, Eq, Structural)]
enum Repr {
    Simple(ErrorKind),
}

/// An error of a byte source or sink. It carries nothing but its kind.
#[derive(Debug)]
pub struct Error {
    repr: Repr,
}

impl View for Error {
    type V = ErrorKind;

    /// An error is fully described by its kind.
    closed spec fn view(&self) -> ErrorKind {
        match self.repr {
            Repr::Simple(kind) => kind,
        }
    }
}

impl Error {
    /// Makes an error of the given kind. The payload is dropped: an error
    /// keeps no message.
    pub fn new<A>(kind: ErrorKind, _payload: A) -> (res: Self)
        ensures
            res@ == kind,
    {
        Self { repr: Repr::Simple(kind) }
    }

    /// The kind this error was made with.
    pub fn kind(&self) -> (res: ErrorKind)
        ensures
            res == self@,
    {
        match self.repr {
            Repr::Simple(kind) => kind,
        }
    }
}

} // verus!
