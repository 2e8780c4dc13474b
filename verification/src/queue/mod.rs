//! The queue commands' shared vocabulary: why a command failed and the
//! exit code each failure maps to, where a writer name came from, and which
//! cassettes a listing shows.

use vstd::prelude::*;

pub mod edit;
pub mod format;
pub mod json;
pub mod view;
pub mod write;

pub use edit::Placement;
pub use write::{Side, WriteMode};

verus! {

/// Where a writer name came from. An unknown `$USER` is bootstrapped on
/// first run, while an unknown `--writer` is a typo and fails.
#[derive(Clone, Copy, Debug, PartialEq, Eq, Structural)]
pub enum WriterSource {
    /// Explicit `--writer`. An unknown name here is a usage error.
    Flag,
    /// Derived from `$USER`. An unknown name here is a first run.
    Env,
}

/// Why a queue command failed, in the shape the exit code is chosen by.
#[derive(Debug)]
pub enum QueueError {
    /// Bad invocation, unknown session, unknown cassette, unregistered
    /// writer, or a kind mismatch. Exit 2.
    Usage(String),
    /// Another writer holds the cassette: wait and retry. Exit 3.
    Busy(String),
    /// No open cassettes at all: nothing to wait for. Exit 5.
    Empty(String),
    /// The session already holds its cap of open cassettes. Exit 6.
    Full(String),
    /// A sticky lock only a human may write or close over. Exit 4.
    Sticky(String),
    /// Anything else. Exit 1.
    Io(String),
}

/// The message a failure carries.
pub open spec fn message_of(e: QueueError) -> Seq<char> {
    match e {
        QueueError::Usage(m) => m@,
        QueueError::Busy(m) => m@,
        QueueError::Empty(m) => m@,
        QueueError::Full(m) => m@,
        QueueError::Sticky(m) => m@,
        QueueError::Io(m) => m@,
    }
}

/// The exit table an agent branches on.
pub open spec fn code_of(e: QueueError) -> int {
    match e {
        QueueError::Io(_) => 1,
        QueueError::Usage(_) => 2,
        QueueError::Busy(_) => 3,
        QueueError::Sticky(_) => 4,
        QueueError::Empty(_) => 5,
        QueueError::Full(_) => 6,
    }
}

/// `e` is the failure with exit code `expect.0` and message `expect.1`.
pub open spec fn is_error(e: QueueError, expect: (int, Seq<char>)) -> bool {
    code_of(e) == expect.0 && message_of(e) == expect.1
}

/// The process exit code this failure deserves (see `code_of`).
pub fn exit_code(e: &QueueError) -> (code: i32)
    ensures
        code == code_of(*e),
{
    match e {
        QueueError::Io(_) => 1,
        QueueError::Usage(_) => 2,
        QueueError::Busy(_) => 3,
        QueueError::Sticky(_) => 4,
        QueueError::Empty(_) => 5,
        QueueError::Full(_) => 6,
    }
}

/// The human-readable message, whatever the variant.
pub fn message(e: &QueueError) -> (m: &str)
    ensures
        m@ == message_of(*e),
{
    match e {
        QueueError::Io(m) => m.as_str(),
        QueueError::Usage(m) => m.as_str(),
        QueueError::Busy(m) => m.as_str(),
        QueueError::Sticky(m) => m.as_str(),
        QueueError::Empty(m) => m.as_str(),
        QueueError::Full(m) => m.as_str(),
    }
}

/// Which cassettes a listing shows.
#[derive(Clone, Copy, Debug, PartialEq, Eq, Structural)]
pub enum StatusFilter {
    Open,
    Closed,
    All,
}

} // verus!
