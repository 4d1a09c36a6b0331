//! Error kinds raised by the toolkit, the error value that carries them, and
//! the per-call strategy that governs how task failures are treated.

use vstd::prelude::*;

verus! {

/// The kind of an error raised by the toolkit itself, or carried over from a
/// failed user task.
#[derive(Clone, Copy, Debug, PartialEq, Eq, Structural)]
pub enum ErrorKind {
    InvalidArgument,
    NotFound,
    Timeout,
    CapacityExceeded,
    IndexOutOfBounds,
    CircuitOpen,
    ReduceEmpty,
    TaskFailed,
    Poisoned,
    InvalidState,
}

/// An error of the toolkit: a kind plus a human-readable message.
#[derive(Clone, Debug)]
pub struct ParallelError {
    pub kind: ErrorKind,
    pub message: String,
}

impl ParallelError {
    /// Build an error of the given kind with an empty message.
    pub fn new(kind: ErrorKind) -> (r: ParallelError)
        ensures
            r.kind == kind,
            r.message@ == Seq::<char>::empty(),
    {
        ParallelError { kind, message: String::new() }
    }

    /// Build an error of the given kind carrying a message.
    pub fn with_message(kind: ErrorKind, message: String) -> (r: ParallelError)
        ensures
            r.kind == kind,
            r.message == message,
    {
        ParallelError { kind, message }
    }

    /// The kind of this error.
    pub fn kind(&self) -> (r: ErrorKind)
        ensures
            r == self.kind,
    {
        self.kind
    }
}

/// How per-item task failures are treated by the combinator kernel:
/// `Raise` aborts at the first error, `Ignore` drops the failing item,
/// `Collect` records it to a side channel and continues.
#[derive(Clone, Copy, Debug, PartialEq, Eq, Structural)]
pub enum ErrorStrategy {
    Raise,
    Ignore,
    Collect,
}

/// Apply an error strategy to one captured task error: `Raise` surfaces it,
/// `Ignore` and `Collect` let execution continue.
pub fn handle_parallel_error(error: ParallelError, strategy: ErrorStrategy) -> (r: Result<(), ParallelError>)
    ensures
        strategy == ErrorStrategy::Raise ==> (r matches Err(e) && e == error),
        strategy != ErrorStrategy::Raise ==> r is Ok,
{
    match strategy {
        ErrorStrategy::Raise => Err(error),
        ErrorStrategy::Ignore => Ok(()),
        ErrorStrategy::Collect => Ok(()),
    }
}

} // verus!
