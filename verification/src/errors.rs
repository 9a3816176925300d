//! Error codes of the debug channel and the errors of this library.

use vstd::prelude::*;

verus! {

/// Code with which the channel says that something is not ready yet.
pub const E_NOT_READY: u16 = 3;

/// Code with which the channel says that a process or thread does not exist.
pub const E_NOT_FOUND: u16 = 10;

/// Code with which the channel says that its target is already in use;
/// for a thread, that it is already running.
pub const E_ALREADY_IN_USE: u16 = 13;

/// Code with which the channel rejects a handle that is not valid.
pub const E_BAD_HANDLE: u16 = 17;

/// Number of bytes in one word of the debuggee's memory.
pub const WORD_SIZE: usize = 8;

/// The operations that a debug channel offers.
#[derive(Clone, Copy, Debug, PartialEq, Eq, Structural)]
pub enum Operation {
    Attach,
    Pause,
    ListThreads,
    ThreadData,
    ReadMemory,
    ResumeProcess,
    ResumeThread,
    Detach,
    Release,
}

/// Why a read of one word of the debuggee's memory gave no value.
#[derive(Clone, Copy, Debug, PartialEq, Eq, Structural)]
pub enum ReadFailure {
    /// The channel refused the read: the target is gone or the address is
    /// not mapped.
    Rejected { code: u16 },
    /// The channel handed over another number of bytes than a word has.
    WrongSize { size: usize },
}

/// The states of a session. A session starts as `Attached` and moves
/// forward only: `Attached`, `Paused`, `Resuming`, `Detached`.
#[derive(Clone, Copy, Debug, PartialEq, Eq, Structural)]
pub enum SessionState {
    Attached,
    Paused,
    Resuming,
    Detached,
}

/// What ends an operation of this library.
#[derive(Clone, Copy, Debug, PartialEq, Eq, Structural)]
pub enum Error {
    /// There is no process with this id to attach to.
    NotFound { pid: u64 },
    /// The channel refused to attach to this process for another reason.
    AttachFailure { pid: u64, code: u16 },
    /// The channel failed an operation that must not fail.
    ChannelFailure { operation: Operation, code: u16 },
    /// The channel answered against the rules of the operation.
    ProtocolViolation { operation: Operation },
    /// A thread could not be resumed, for a reason that is not harmless.
    ResumeRejected { tid: u64, code: u16 },
    /// The operation does not belong to the state that the session is in.
    OutOfOrder { state: SessionState },
}

/// The verdict on the answer to a read of one word: the word, if the channel
/// handed over exactly one word.
pub open spec fn word_verdict(answer: Result<(usize, u64), u16>) -> Result<u64, ReadFailure> {
    match answer {
        Ok((size, value)) => if size == WORD_SIZE {
            Ok(value)
        } else {
            Err(ReadFailure::WrongSize { size })
        },
        Err(code) => Err(ReadFailure::Rejected { code }),
    }
}

/// Judges the answer of the channel to a read of one word.
pub fn check_word(answer: Result<(usize, u64), u16>) -> (r: Result<u64, ReadFailure>)
    ensures
        r == word_verdict(answer),
{
    match answer {
        Ok((size, value)) => if size == WORD_SIZE {
            Ok(value)
        } else {
            Err(ReadFailure::WrongSize { size })
        },
        Err(code) => Err(ReadFailure::Rejected { code }),
    }
}

/// Whether a failure to resume a thread is harmless: the thread runs
/// already, is gone, or cannot be resumed yet.
pub open spec fn is_benign_resume_code(code: u16) -> bool {
    code == E_ALREADY_IN_USE || code == E_NOT_FOUND || code == E_NOT_READY
}

/// The error, if any, that the answer to a request to resume a thread
/// stands for.
pub open spec fn resume_verdict(tid: u64, answer: Result<(), u16>) -> Option<Error> {
    match answer {
        Ok(_) => None,
        Err(code) => if is_benign_resume_code(code) {
            None
        } else {
            Some(Error::ResumeRejected { tid, code })
        },
    }
}

/// Judges the answer of the channel to a request to resume a thread.
pub fn check_resume(tid: u64, answer: Result<(), u16>) -> (r: Result<(), Error>)
    ensures
        r.err() == resume_verdict(tid, answer),
        r is Ok <==> resume_verdict(tid, answer) is None,
{
    match answer {
        Ok(_) => Ok(()),
        Err(code) => if code == E_ALREADY_IN_USE || code == E_NOT_FOUND || code == E_NOT_READY {
            Ok(())
        } else {
            Err(Error::ResumeRejected { tid, code })
        },
    }
}

/// The error that a refused attach stands for.
pub open spec fn attach_error(pid: u64, code: u16) -> Error {
    if code == E_NOT_FOUND {
        Error::NotFound { pid }
    } else {
        Error::AttachFailure { pid, code }
    }
}

/// Names the error of an attach that the channel refused with `code`.
pub fn check_attach(pid: u64, code: u16) -> (e: Error)
    ensures
        e == attach_error(pid, code),
{
    if code == E_NOT_FOUND {
        Error::NotFound { pid }
    } else {
        Error::AttachFailure { pid, code }
    }
}

/// The error, if any, that the answer to a request without a result stands
/// for: every refusal is an error of the channel.
pub open spec fn plain_verdict(operation: Operation, answer: Result<(), u16>) -> Option<Error> {
    match answer {
        Ok(_) => None,
        Err(code) => Some(Error::ChannelFailure { operation, code }),
    }
}

/// The error, if any, that the answer to the release of a detached handle
/// stands for: the channel must reject the handle as no longer valid.
pub open spec fn release_verdict(answer: Result<(), u16>) -> Option<Error> {
    if answer == Err::<(), u16>(E_BAD_HANDLE) {
        None
    } else {
        Some(Error::ProtocolViolation { operation: Operation::Release })
    }
}

/// Judges the answer of the channel to the release of a detached handle.
pub fn check_release(answer: Result<(), u16>) -> (r: Result<(), Error>)
    ensures
        r.err() == release_verdict(answer),
        r is Ok <==> release_verdict(answer) is None,
{
    match answer {
        Err(code) => if code == E_BAD_HANDLE {
            Ok(())
        } else {
            Err(Error::ProtocolViolation { operation: Operation::Release })
        },
        Ok(_) => Err(Error::ProtocolViolation { operation: Operation::Release }),
    }
}

} // verus!
