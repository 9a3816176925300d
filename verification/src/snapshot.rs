//! What is known of one thread at the moment it was looked at.

use vstd::prelude::*;

verus! {

/// What a thread was doing when it was looked at.
#[derive(Clone, Copy, Debug, PartialEq, Eq, Structural)]
pub enum ThreadStatus {
    Unknown,
    Created,
    LiveRunning,
    LivePreempted,
    LiveRunnable,
    LiveSyscall,
    LiveInWait,
    Dead,
}

/// The status that the number `code` stands for; `Unknown` for a number
/// that stands for none.
pub open spec fn status_of(code: u16) -> ThreadStatus {
    if code == 1 {
        ThreadStatus::Created
    } else if code == 2 {
        ThreadStatus::LiveRunning
    } else if code == 3 {
        ThreadStatus::LivePreempted
    } else if code == 4 {
        ThreadStatus::LiveRunnable
    } else if code == 5 {
        ThreadStatus::LiveSyscall
    } else if code == 6 {
        ThreadStatus::LiveInWait
    } else if code == 7 {
        ThreadStatus::Dead
    } else {
        ThreadStatus::Unknown
    }
}

impl ThreadStatus {
    /// The status that the number `code` stands for.
    pub fn from_code(code: u16) -> (status: ThreadStatus)
        ensures
            status == status_of(code),
    {
        if code == 1 {
            ThreadStatus::Created
        } else if code == 2 {
            ThreadStatus::LiveRunning
        } else if code == 3 {
            ThreadStatus::LivePreempted
        } else if code == 4 {
            ThreadStatus::LiveRunnable
        } else if code == 5 {
            ThreadStatus::LiveSyscall
        } else if code == 6 {
            ThreadStatus::LiveInWait
        } else if code == 7 {
            ThreadStatus::Dead
        } else {
            ThreadStatus::Unknown
        }
    }
}

/// The state of one thread at one moment, as the channel handed it over.
#[derive(Clone, Copy, Debug, PartialEq, Eq, Structural)]
pub struct ThreadRuntimeSnapshot {
    /// The id of the thread.
    pub tid: u64,
    /// The number of the thread's status.
    pub status_code: u16,
    /// The number of the system call that the thread is in, if it is in one.
    pub syscall_num: u8,
    /// The operation of that system call.
    pub syscall_op: u8,
    /// The address of the instruction that the thread is at.
    pub instruction_pointer: u64,
    /// The frame pointer of the thread: the address of its innermost frame.
    pub frame_pointer: u64,
}

impl ThreadRuntimeSnapshot {
    /// What the thread was doing.
    pub fn status(&self) -> (status: ThreadStatus)
        ensures
            status == status_of(self.status_code),
    {
        ThreadStatus::from_code(self.status_code)
    }
}

} // verus!
