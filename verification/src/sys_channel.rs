//! The debug channel of the system: a handle to a process that the kernel
//! lets this process debug.
//!
//! Every function here that is marked `external_body` makes one call into
//! `moto_sys` and is believed, not proved. What the kernel answers depends
//! on the debuggee, so none of them promises anything of its result.

use vstd::prelude::*;
use crate::channel::{DebugChannel, Event};
use crate::enumerator::PAGE_CAPACITY;
use crate::errors::{check_attach, Error, E_NOT_FOUND};
use crate::capture::{found_in, lemma_finds_nothing, lemma_found_concat, show_all};
use crate::errors::SessionState;
use crate::session::{did_all, Session, ThreadScan};
use crate::trace::{failure_of, first_failure, lemma_concat, lemma_push, listed, resumed};
use crate::snapshot::ThreadRuntimeSnapshot;

verus! {

/// The handle of a kernel object, as `moto_sys` holds it. Nothing is known
/// of what is inside.
#[verifier::external_type_specification]
#[verifier::external_body]
pub struct ExSysHandle(moto_sys::SysHandle);

/// The most thread ids that the system is asked for at a time.
pub const MAX_PAGE_CAPACITY: usize = 4096;

/// Calls `moto_sys::SysRay::dbg_attach`, which asks the kernel for a debug
/// handle to the process `pid`. Nothing is claimed of the answer.
#[verifier::external_body]
fn raw_attach(pid: u64) -> (r: Result<moto_sys::SysHandle, u16>) {
    moto_sys::SysRay::dbg_attach(pid)
}

/// Calls `moto_sys::SysRay::dbg_pause_process`, which marks the debuggee as
/// paused. Nothing is claimed of the answer.
#[verifier::external_body]
fn raw_pause(handle: &moto_sys::SysHandle) -> (r: Result<(), u16>) {
    moto_sys::SysRay::dbg_pause_process(*handle)
}

/// The length of the buffer that the system is handed for a page of at
/// most `capacity` thread ids: `capacity`, and no more than
/// `MAX_PAGE_CAPACITY`.
pub fn page_buffer_len(capacity: usize) -> (len: usize)
    ensures
        len == if capacity > MAX_PAGE_CAPACITY {
            MAX_PAGE_CAPACITY
        } else {
            capacity
        },
{
    if capacity > MAX_PAGE_CAPACITY {
        MAX_PAGE_CAPACITY
    } else {
        capacity
    }
}

/// Calls `moto_sys::SysRay::dbg_list_threads` with a buffer of `capacity`
/// zeros, and hands back the number that the call returned together with
/// the buffer. Nothing is claimed of either.
#[verifier::external_body]
fn raw_list_threads(handle: &moto_sys::SysHandle, start_tid: u64, capacity: usize) -> (r: Result<
    (usize, Vec<u64>),
    u16,
>)
    requires
        capacity <= MAX_PAGE_CAPACITY,
{
    let mut buffer = vec![0u64; capacity];
    match moto_sys::SysRay::dbg_list_threads(*handle, start_tid, &mut buffer) {
        Ok(count) => Ok((count, buffer)),
        Err(code) => Err(code),
    }
}

/// Calls `moto_sys::SysRay::dbg_get_thread_data_v1` and copies the fields
/// of the answer, the status as its number. Nothing is claimed of them.
#[verifier::external_body]
fn raw_thread_data(handle: &moto_sys::SysHandle, tid: u64) -> (r: Result<
    ThreadRuntimeSnapshot,
    u16,
>) {
    match moto_sys::SysRay::dbg_get_thread_data_v1(*handle, tid) {
        Ok(data) => Ok(
            ThreadRuntimeSnapshot {
                tid: data.tid,
                status_code: data.status as u16,
                syscall_num: data.syscall_num,
                syscall_op: data.syscall_op,
                instruction_pointer: data.ip,
                frame_pointer: data.rbp,
            },
        ),
        Err(code) => Err(code),
    }
}

/// Calls `moto_sys::SysRay::dbg_get_mem` with a buffer of eight bytes, and
/// hands back the number of bytes that the call returned together with the
/// word that the buffer holds, in the byte order of this machine. Nothing
/// is claimed of either.
#[verifier::external_body]
fn raw_read_word(handle: &moto_sys::SysHandle, addr: u64) -> (r: Result<(usize, u64), u16>) {
    let mut buffer = [0u8; 8];
    match moto_sys::SysRay::dbg_get_mem(*handle, addr, &mut buffer) {
        Ok(size) => Ok((size, u64::from_ne_bytes(buffer))),
        Err(code) => Err(code),
    }
}

/// Calls `moto_sys::SysRay::dbg_resume_process`, which marks the debuggee
/// as running. Nothing is claimed of the answer.
#[verifier::external_body]
fn raw_resume_process(handle: &moto_sys::SysHandle) -> (r: Result<(), u16>) {
    moto_sys::SysRay::dbg_resume_process(*handle)
}

/// Calls `moto_sys::SysRay::dbg_resume_thread`, which asks that a paused
/// thread run again. Nothing is claimed of the answer.
#[verifier::external_body]
fn raw_resume_thread(handle: &moto_sys::SysHandle, tid: u64) -> (r: Result<(), u16>) {
    moto_sys::SysRay::dbg_resume_thread(*handle, tid)
}

/// Calls `moto_sys::SysRay::dbg_detach`, which detaches the debugger.
/// Nothing is claimed of the answer.
#[verifier::external_body]
fn raw_detach(handle: &moto_sys::SysHandle) -> (r: Result<(), u16>) {
    moto_sys::SysRay::dbg_detach(*handle)
}

/// Calls `moto_sys::SysObj::put`, which gives a handle back to the kernel.
/// Nothing is claimed of the answer.
#[verifier::external_body]
fn raw_release(handle: &moto_sys::SysHandle) -> (r: Result<(), u16>) {
    moto_sys::SysObj::put(*handle)
}

/// The debug channel to a process that the kernel gave a handle to.
pub struct SysChannel {
    handle: moto_sys::SysHandle,
}

impl SysChannel {
    /// Attaches to the process `pid`. Where the kernel refuses, the error
    /// says whether there is no such process or names the code otherwise.
    pub fn attach(pid: u64) -> (r: Result<SysChannel, Error>)
        ensures
            r matches Err(e) ==> {
                ||| e == Error::NotFound { pid }
                ||| e matches Error::AttachFailure { pid: p, code } && p == pid && code
                    != E_NOT_FOUND
            },
    {
        match raw_attach(pid) {
            Ok(handle) => Ok(SysChannel { handle }),
            Err(code) => Err(check_attach(pid, code)),
        }
    }
}

impl DebugChannel for SysChannel {
    fn pause(&mut self) -> Result<(), u16> {
        raw_pause(&self.handle)
    }

    fn list_threads(&mut self, start_tid: u64, capacity: usize) -> Result<(usize, Vec<u64>), u16> {
        raw_list_threads(&self.handle, start_tid, page_buffer_len(capacity))
    }

    fn thread_data(&mut self, tid: u64) -> Result<ThreadRuntimeSnapshot, u16> {
        raw_thread_data(&self.handle, tid)
    }

    fn read_word(&mut self, addr: u64) -> Result<(usize, u64), u16> {
        raw_read_word(&self.handle, addr)
    }

    fn resume_process(&mut self) -> Result<(), u16> {
        raw_resume_process(&self.handle)
    }

    fn resume_thread(&mut self, tid: u64) -> Result<(), u16> {
        raw_resume_thread(&self.handle, tid)
    }

    fn detach(&mut self) -> Result<(), u16> {
        raw_detach(&self.handle)
    }

    fn release(&mut self) -> Result<(), u16> {
        raw_release(&self.handle)
    }
}

/// Looks at the stacks of all the threads of the process `pid`: attaches to
/// it and does all that a session does, waiting by `settle` behind the
/// request to freeze. Where the attach is refused nothing more is asked.
/// Otherwise the session is handed out as it ended, with what the scan
/// found and the first error behind the attach, if there was one. Its
/// trace begins with the attach to `pid` and the request to freeze; behind
/// a pause that was granted come the events of the scan, of the resuming
/// and of the detach, in this order.
pub fn inspect_process<F: FnOnce()>(pid: u64, settle: F) -> (r: Result<
    (Session<SysChannel>, ThreadScan),
    Error,
>)
    requires
        call_requires(settle, ()),
    ensures
        r matches Err(e) ==> {
            ||| e == Error::NotFound { pid }
            ||| e matches Error::AttachFailure { pid: p, code } && p == pid && code != E_NOT_FOUND
        },
        r matches Ok((session, out)) ==> {
            &&& session.inv()
            &&& session.trace().len() >= 2
            &&& session.trace()[0] == Event::Attach { pid, answer: Ok(()) }
            &&& session.trace()[1] is Pause
            &&& out.failure == first_failure(session.trace())
            &&& show_all(out.reports@, found_in(session.trace()))
            &&& resumed(session.trace()) + session.pending() == listed(session.trace())
            &&& if failure_of(session.trace()[1]) is Some {
                &&& session.trace().len() == 2
                &&& session.state() == SessionState::Attached
            } else {
                &&& call_ensures(settle, (), ())
                &&& did_all(
                    session.trace().skip(2),
                    out.reports@,
                    session.state(),
                    0,
                    PAGE_CAPACITY,
                )
            }
            &&& session.state() == SessionState::Detached ==> session.pending() == Seq::<
                u64,
            >::empty()
            &&& out.failure is None ==> {
                &&& session.state() == SessionState::Detached
                &&& resumed(session.trace()) == listed(session.trace())
            }
        },
{
    match attach(pid) {
        Err(e) => Err(e),
        Ok(session) => {
            let mut session = session;
            let ghost first = Event::Attach { pid, answer: Ok(()) };
            let out = session.inspect(settle);
            proof {
                let rest = session.since(seq![first]);
                assert(session.trace() =~= seq![first] + rest);
                assert(session.trace().skip(2) =~= rest.skip(1));
                assert(session.trace()[1] == rest[0]);
                lemma_concat(seq![first], rest);
                lemma_found_concat(Seq::empty(), seq![first], rest);
                lemma_finds_nothing(Seq::empty(), seq![first]);
                lemma_push(Seq::<Event>::empty(), first);
                assert(Seq::<Event>::empty().push(first) =~= seq![first]);
                assert(resumed(seq![first]) + resumed(rest) =~= resumed(rest));
                assert(listed(seq![first]) + listed(rest) =~= listed(rest));
                assert(Seq::<u64>::empty() + listed(rest) =~= listed(rest));
            }
            Ok((session, out))
        },
    }
}

/// Attaches to the process `pid` and begins a session with it. The attach
/// is the first event of the trace of the session.
pub fn attach(pid: u64) -> (r: Result<Session<SysChannel>, Error>)
    ensures
        r matches Ok(s) ==> {
            &&& s.inv()
            &&& s.state() == SessionState::Attached
            &&& s.trace() == seq![Event::Attach { pid, answer: Ok(()) }]
            &&& s.cursor() == 0
            &&& s.capacity() == PAGE_CAPACITY
            &&& s.pending() == Seq::<u64>::empty()
        },
        r matches Err(e) ==> {
            ||| e == Error::NotFound { pid }
            ||| e matches Error::AttachFailure { pid: p, code } && p == pid && code != E_NOT_FOUND
        },
{
    match SysChannel::attach(pid) {
        Ok(channel) => Ok(Session::over_attached(channel, pid)),
        Err(e) => Err(e),
    }
}

} // verus!
