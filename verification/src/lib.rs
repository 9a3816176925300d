//! Stack inspection of a running process through a debug channel.
//!
//! A session attaches to a process, freezes its threads, rebuilds each
//! thread's call stack by following frame pointers through the memory of
//! the process, and then resumes every thread it has seen before it lets
//! the process go.
//!
//! Everything is asked of the process through a [`channel::DebugChannel`].
//! What the channel answers is not in the hands of this library, so its
//! contracts speak of the trace: the requests that were made, in order,
//! each with the answer that came back. They say which requests an
//! operation makes and what it returns for each way the answers can go.

pub mod backtrace;
pub mod capture;
pub mod chain;
pub mod channel;
pub mod command;
pub mod coverage;
pub mod enumerator;
pub mod errors;
pub mod interrupt;
pub mod paging;
pub mod session;
pub mod snapshot;
pub mod sys_channel;
pub mod trace;
pub mod unwind;
pub mod walker;
