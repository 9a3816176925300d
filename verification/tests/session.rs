use std::cell::RefCell;
use std::collections::HashMap;
use std::rc::Rc;

use mdbg::channel::{DebugChannel, Traced};
use mdbg::enumerator::{list_from, ThreadEnumerator, PAGE_CAPACITY};
use mdbg::errors::{
    check_attach, check_release, check_resume, Error, Operation, SessionState, E_ALREADY_IN_USE,
    E_BAD_HANDLE, E_NOT_FOUND, E_NOT_READY,
};
use mdbg::paging::{check_page, is_rising_from};
use mdbg::capture::capture_thread;
use mdbg::session::Session;
use mdbg::snapshot::{ThreadRuntimeSnapshot, ThreadStatus};
use mdbg::sys_channel::{page_buffer_len, MAX_PAGE_CAPACITY};

const E_INTERNAL: u16 = 11;

/// A debuggee made up for the tests: its threads, its memory, and a record
/// of what was asked of it.
struct Process {
    threads: Vec<u64>,
    frozen: Vec<u64>,
    late: Vec<u64>,
    unknown: Vec<u64>,
    memory: HashMap<u64, u64>,
    detached: bool,
    holding: bool,
    refuse: HashMap<&'static str, u16>,
    refuse_resume_of: HashMap<u64, u16>,
    release_accepts: bool,
    garble_from: Option<u64>,
    overfull_from: Option<u64>,
    fail_listing: Option<usize>,
    listings: usize,
    calls: Vec<String>,
    journal: Rc<RefCell<Vec<String>>>,
    resumed: Vec<u64>,
    captured: Vec<u64>,
}

impl Process {
    fn with_threads(threads: Vec<u64>) -> Self {
        Process {
            threads,
            frozen: Vec::new(),
            late: Vec::new(),
            unknown: Vec::new(),
            memory: HashMap::new(),
            detached: false,
            holding: false,
            refuse: HashMap::new(),
            refuse_resume_of: HashMap::new(),
            release_accepts: false,
            garble_from: None,
            overfull_from: None,
            fail_listing: None,
            listings: 0,
            calls: Vec::new(),
            journal: Rc::new(RefCell::new(Vec::new())),
            resumed: Vec::new(),
            captured: Vec::new(),
        }
    }

    fn refused(&self, operation: &'static str) -> Result<(), u16> {
        if self.detached {
            return Err(E_BAD_HANDLE);
        }
        match self.refuse.get(operation) {
            Some(code) => Err(*code),
            None => Ok(()),
        }
    }
}

impl DebugChannel for Process {
    fn pause(&mut self) -> Result<(), u16> {
        self.calls.push("pause".to_string());
        self.journal.borrow_mut().push("pause".to_string());
        self.refused("pause")?;
        self.holding = true;
        self.frozen = self.threads.clone();
        Ok(())
    }

    fn list_threads(&mut self, start_tid: u64, capacity: usize) -> Result<(usize, Vec<u64>), u16> {
        self.calls.push(format!("list {start_tid}"));
        self.journal.borrow_mut().push("list".to_string());
        self.refused("list")?;
        self.listings += 1;
        if self.fail_listing == Some(self.listings - 1) {
            return Err(E_INTERNAL);
        }
        let mut page: Vec<u64> =
            self.threads.iter().copied().filter(|t| *t >= start_tid).take(capacity).collect();
        if self.garble_from.map_or(false, |from| start_tid >= from) {
            page.reverse();
        }
        let count = page.len();
        page.resize(capacity, 0);
        if self.overfull_from.map_or(false, |from| start_tid >= from) {
            return Ok((capacity + 1, page));
        }
        Ok((count, page))
    }

    fn thread_data(&mut self, tid: u64) -> Result<ThreadRuntimeSnapshot, u16> {
        self.calls.push(format!("data {tid}"));
        self.refused("data")?;
        if self.unknown.contains(&tid) || !self.threads.contains(&tid) {
            return Err(E_NOT_FOUND);
        }
        self.captured.push(tid);
        Ok(ThreadRuntimeSnapshot {
            tid,
            status_code: 6,
            syscall_num: 2,
            syscall_op: 1,
            instruction_pointer: 0x40_0000 + tid,
            frame_pointer: 0x7000_0000 + 0x1000 * tid,
        })
    }

    fn read_word(&mut self, addr: u64) -> Result<(usize, u64), u16> {
        self.refused("read")?;
        match self.memory.get(&addr) {
            Some(word) => Ok((8, *word)),
            None => Err(E_NOT_FOUND),
        }
    }

    fn resume_process(&mut self) -> Result<(), u16> {
        self.calls.push("resume process".to_string());
        self.refused("resume process")?;
        self.holding = false;
        let late: Vec<u64> = self.late.drain(..).collect();
        for tid in late {
            self.threads.push(tid);
            self.frozen.push(tid);
        }
        Ok(())
    }

    fn resume_thread(&mut self, tid: u64) -> Result<(), u16> {
        self.calls.push(format!("resume {tid}"));
        self.refused("resume")?;
        self.resumed.push(tid);
        if let Some(code) = self.refuse_resume_of.get(&tid) {
            return Err(*code);
        }
        if !self.threads.contains(&tid) {
            return Err(E_NOT_FOUND);
        }
        match self.frozen.iter().position(|t| *t == tid) {
            Some(at) => {
                self.frozen.remove(at);
                Ok(())
            }
            None => Err(E_ALREADY_IN_USE),
        }
    }

    fn detach(&mut self) -> Result<(), u16> {
        self.calls.push("detach".to_string());
        self.refused("detach")?;
        self.detached = true;
        Ok(())
    }

    fn release(&mut self) -> Result<(), u16> {
        self.calls.push("release".to_string());
        if self.release_accepts {
            return Ok(());
        }
        if self.detached {
            Err(E_BAD_HANDLE)
        } else {
            Ok(())
        }
    }
}

fn paused_session(process: Process) -> Session<Process> {
    let mut session = Session::over(process);
    assert_eq!(session.pause(), Ok(()));
    session
}

fn ids_of(reports: &[mdbg::capture::ThreadReport]) -> Vec<u64> {
    reports.iter().map(|r| r.tid).collect()
}

#[test]
fn page_capacity_is_64() {
    assert_eq!(PAGE_CAPACITY, 64);
}

#[test]
fn benign_resume_codes_are_passed_over() {
    assert_eq!(check_resume(7, Ok(())), Ok(()));
    assert_eq!(check_resume(7, Err(E_ALREADY_IN_USE)), Ok(()));
    assert_eq!(check_resume(7, Err(E_NOT_FOUND)), Ok(()));
    assert_eq!(check_resume(7, Err(E_NOT_READY)), Ok(()));
}

#[test]
fn other_resume_codes_are_errors() {
    assert_eq!(check_resume(7, Err(E_INTERNAL)), Err(Error::ResumeRejected { tid: 7, code: 11 }));
    assert_eq!(
        check_resume(9, Err(E_BAD_HANDLE)),
        Err(Error::ResumeRejected { tid: 9, code: E_BAD_HANDLE })
    );
    assert_eq!(check_resume(9, Err(0)), Err(Error::ResumeRejected { tid: 9, code: 0 }));
}

#[test]
fn attach_errors_tell_a_missing_process_from_the_rest() {
    assert_eq!(check_attach(42, E_NOT_FOUND), Error::NotFound { pid: 42 });
    assert_eq!(check_attach(42, 9), Error::AttachFailure { pid: 42, code: 9 });
}

#[test]
fn release_must_be_rejected_as_bad_handle() {
    assert_eq!(check_release(Err(E_BAD_HANDLE)), Ok(()));
    assert_eq!(
        check_release(Ok(())),
        Err(Error::ProtocolViolation { operation: Operation::Release })
    );
    assert_eq!(
        check_release(Err(E_NOT_FOUND)),
        Err(Error::ProtocolViolation { operation: Operation::Release })
    );
}

#[test]
fn error_codes_are_those_of_the_system() {
    assert_eq!(E_NOT_READY, moto_rt::E_NOT_READY);
    assert_eq!(E_NOT_FOUND, moto_rt::E_NOT_FOUND);
    assert_eq!(E_ALREADY_IN_USE, moto_rt::E_ALREADY_IN_USE);
    assert_eq!(E_BAD_HANDLE, moto_rt::E_BAD_HANDLE);
}

#[test]
fn status_numbers_are_those_of_the_system() {
    assert_eq!(ThreadStatus::from_code(moto_sys::stats::ThreadStatus::Unknown as u16), ThreadStatus::Unknown);
    assert_eq!(ThreadStatus::from_code(moto_sys::stats::ThreadStatus::Created as u16), ThreadStatus::Created);
    assert_eq!(ThreadStatus::from_code(moto_sys::stats::ThreadStatus::LiveRunning as u16), ThreadStatus::LiveRunning);
    assert_eq!(ThreadStatus::from_code(moto_sys::stats::ThreadStatus::LivePreempted as u16), ThreadStatus::LivePreempted);
    assert_eq!(ThreadStatus::from_code(moto_sys::stats::ThreadStatus::LiveRunnable as u16), ThreadStatus::LiveRunnable);
    assert_eq!(ThreadStatus::from_code(moto_sys::stats::ThreadStatus::LiveSyscall as u16), ThreadStatus::LiveSyscall);
    assert_eq!(ThreadStatus::from_code(moto_sys::stats::ThreadStatus::LiveInWait as u16), ThreadStatus::LiveInWait);
    assert_eq!(ThreadStatus::from_code(moto_sys::stats::ThreadStatus::Dead as u16), ThreadStatus::Dead);
    assert_eq!(ThreadStatus::from_code(8), ThreadStatus::Unknown);
    assert_eq!(ThreadStatus::from_code(u16::MAX), ThreadStatus::Unknown);
}

#[test]
fn snapshot_names_its_status() {
    let snapshot = ThreadRuntimeSnapshot {
        tid: 3,
        status_code: 5,
        syscall_num: 1,
        syscall_op: 2,
        instruction_pointer: 0x40_0000,
        frame_pointer: 0,
    };
    assert_eq!(snapshot.status(), ThreadStatus::LiveSyscall);
    assert_eq!(format!("{:?}", snapshot.status()), "LiveSyscall");
}

#[test]
fn rising_ids_are_told_from_others() {
    assert!(is_rising_from(&vec![], 5));
    assert!(is_rising_from(&vec![5, 6, 9], 5));
    assert!(!is_rising_from(&vec![4, 6, 9], 5));
    assert!(!is_rising_from(&vec![5, 5], 5));
    assert!(!is_rising_from(&vec![5, 9, 8], 5));
    assert!(is_rising_from(&vec![u64::MAX], u64::MAX));
}

#[test]
fn page_is_cut_to_its_count() {
    assert_eq!(check_page(3, 4, Ok((2, vec![3, 7, 0, 0]))), Ok(vec![3, 7]));
    assert_eq!(check_page(3, 4, Ok((0, vec![0, 0, 0, 0]))), Ok(vec![]));
    assert_eq!(check_page(3, 4, Ok((4, vec![3, 4, 5, 6]))), Ok(vec![3, 4, 5, 6]));
}

#[test]
fn page_against_the_rules_is_a_protocol_violation() {
    let violation = Err(Error::ProtocolViolation { operation: Operation::ListThreads });
    assert_eq!(check_page(3, 4, Ok((5, vec![3, 4, 5, 6, 7]))), violation);
    assert_eq!(check_page(3, 4, Ok((3, vec![3, 4]))), violation);
    assert_eq!(check_page(3, 4, Ok((2, vec![2, 4, 0, 0]))), violation);
    assert_eq!(check_page(3, 4, Ok((2, vec![7, 3, 0, 0]))), violation);
    assert_eq!(check_page(3, 4, Ok((2, vec![7, 7, 0, 0]))), violation);
}

#[test]
fn refused_page_is_a_channel_failure() {
    assert_eq!(
        check_page(3, 4, Err(E_NOT_FOUND)),
        Err(Error::ChannelFailure { operation: Operation::ListThreads, code: E_NOT_FOUND })
    );
}

#[test]
fn enumeration_goes_through_all_pages() {
    let mut link = Traced::new(Process::with_threads((0..130).collect()));
    let ids = list_from(&mut link, 0, 64).unwrap();
    assert_eq!(ids, (0..130).collect::<Vec<u64>>());
    assert_eq!(link.channel().calls, vec!["list 0", "list 64", "list 128", "list 130"]);
}

#[test]
fn enumeration_begins_where_it_is_told() {
    let mut link = Traced::new(Process::with_threads(vec![2, 5, 9, 12, 40]));
    assert_eq!(list_from(&mut link, 6, 2), Ok(vec![9, 12, 40]));
    assert_eq!(link.channel().calls, vec!["list 6", "list 13", "list 41"]);
}

#[test]
fn enumeration_of_nothing_asks_once() {
    let mut link = Traced::new(Process::with_threads(vec![]));
    assert_eq!(list_from(&mut link, 0, 64), Ok(vec![]));
    assert_eq!(link.channel().calls, vec!["list 0"]);
}

#[test]
fn enumeration_ends_at_the_last_id_there_is() {
    let mut link = Traced::new(Process::with_threads(vec![7, u64::MAX]));
    assert_eq!(list_from(&mut link, 0, 64), Ok(vec![7, u64::MAX]));
    assert_eq!(link.channel().calls, vec!["list 0"]);
}

#[test]
fn enumeration_ends_at_the_first_error() {
    let mut process = Process::with_threads((0..10).collect());
    process.garble_from = Some(4);
    let mut link = Traced::new(process);
    assert_eq!(
        list_from(&mut link, 0, 4),
        Err(Error::ProtocolViolation { operation: Operation::ListThreads })
    );
    assert_eq!(link.channel().calls, vec!["list 0", "list 4"]);

    let mut process = Process::with_threads((0..10).collect());
    process.refuse.insert("list", E_INTERNAL);
    let mut link = Traced::new(process);
    assert_eq!(
        list_from(&mut link, 0, 4),
        Err(Error::ChannelFailure { operation: Operation::ListThreads, code: E_INTERNAL })
    );
}

#[test]
fn enumerator_stays_behind_an_empty_page() {
    let mut link = Traced::new(Process::with_threads(vec![1, 2, 3]));
    let mut enumerator = ThreadEnumerator::new(0, 2);
    assert_eq!(enumerator.next_page(&mut link), Ok(vec![1, 2]));
    assert_eq!(enumerator.next_tid, Some(3));
    assert_eq!(enumerator.next_page(&mut link), Ok(vec![3]));
    assert_eq!(enumerator.next_tid, Some(4));
    assert_eq!(enumerator.next_page(&mut link), Ok(vec![]));
    assert_eq!(enumerator.next_tid, Some(4));
    assert_eq!(enumerator.next_page(&mut link), Ok(vec![]));
    assert_eq!(link.channel().calls, vec!["list 0", "list 3", "list 4", "list 4"]);
}

#[test]
fn enumerator_stays_where_it_was_at_an_error() {
    let mut process = Process::with_threads(vec![1, 2, 3]);
    process.overfull_from = Some(3);
    let mut link = Traced::new(process);
    let mut enumerator = ThreadEnumerator::new(0, 2);
    assert_eq!(enumerator.next_page(&mut link), Ok(vec![1, 2]));
    assert_eq!(
        enumerator.next_page(&mut link),
        Err(Error::ProtocolViolation { operation: Operation::ListThreads })
    );
    assert_eq!(enumerator.next_tid, Some(3));
}

#[test]
fn enumerator_at_the_end_of_all_ids_asks_nothing() {
    let mut link = Traced::new(Process::with_threads(vec![u64::MAX]));
    let mut enumerator = ThreadEnumerator::new(u64::MAX, 2);
    assert_eq!(enumerator.next_page(&mut link), Ok(vec![u64::MAX]));
    assert_eq!(enumerator.next_tid, None);
    assert_eq!(enumerator.next_page(&mut link), Ok(vec![]));
    assert_eq!(link.channel().calls, vec!["list 18446744073709551615"]);
}

#[test]
fn capture_holds_state_and_backtrace() {
    let mut process = Process::with_threads(vec![3]);
    process.memory.insert(0x7000_3008, 0x40_1111);
    process.memory.insert(0x7000_3000, 0);
    let mut link = Traced::new(process);
    let report = capture_thread(&mut link, 3);
    assert_eq!(report.tid, 3);
    let capture = report.capture.unwrap();
    assert_eq!(capture.snapshot.tid, 3);
    assert_eq!(capture.snapshot.instruction_pointer, 0x40_0003);
    assert_eq!(capture.snapshot.frame_pointer, 0x7000_3000);
    assert_eq!(capture.backtrace.addresses(), &vec![0x40_1111]);
}

#[test]
fn capture_of_a_thread_that_is_gone_holds_the_code() {
    let mut link = Traced::new(Process::with_threads(vec![3]));
    let report = capture_thread(&mut link, 4);
    assert_eq!(report.tid, 4);
    assert_eq!(report.capture.unwrap_err(), E_NOT_FOUND);
}

#[test]
fn session_goes_through_its_states() {
    let mut session = Session::over(Process::with_threads(vec![1, 2]));
    assert_eq!(session.current_state(), SessionState::Attached);
    assert_eq!(session.pause(), Ok(()));
    assert_eq!(session.current_state(), SessionState::Paused);
    let scan = session.snapshot_all_threads();
    assert_eq!(scan.failure, None);
    assert_eq!(ids_of(&scan.reports), vec![1, 2]);
    assert_eq!(session.current_state(), SessionState::Paused);
    assert_eq!(session.pending_len(), 2);
    assert_eq!(session.resume_all(), Ok(()));
    assert_eq!(session.current_state(), SessionState::Resuming);
    assert_eq!(session.pending_len(), 0);
    assert_eq!(session.detach(), Ok(()));
    assert_eq!(session.current_state(), SessionState::Detached);
    assert_eq!(
        session.channel().calls,
        vec![
            "pause",
            "list 0",
            "data 1",
            "data 2",
            "list 3",
            "resume process",
            "resume 1",
            "resume 2",
            "list 3",
            "detach",
            "release"
        ]
    );
    assert!(session.channel().frozen.is_empty());
}

#[test]
fn every_thread_of_many_pages_is_captured_and_resumed_once() {
    let mut session = paused_session(Process::with_threads((0..130).collect()));
    let scan = session.snapshot_all_threads();
    assert_eq!(scan.failure, None);
    assert_eq!(ids_of(&scan.reports), (0..130).collect::<Vec<u64>>());
    assert_eq!(session.resume_all(), Ok(()));
    assert_eq!(session.detach(), Ok(()));
    let process = session.channel();
    assert_eq!(process.captured, (0..130).collect::<Vec<u64>>());
    assert_eq!(process.resumed, (0..130).collect::<Vec<u64>>());
    assert!(process.frozen.is_empty());
    let lists: Vec<&String> = process.calls.iter().filter(|c| c.starts_with("list")).collect();
    assert_eq!(lists, vec!["list 0", "list 64", "list 128", "list 130", "list 130"]);
}

#[test]
fn thread_that_came_late_is_found_and_resumed() {
    let mut process = Process::with_threads(vec![1, 2, 3]);
    process.late = vec![7, 9];
    let mut session = paused_session(process);
    let scan = session.snapshot_all_threads();
    assert_eq!(ids_of(&scan.reports), vec![1, 2, 3]);
    assert_eq!(session.resume_all(), Ok(()));
    let process = session.channel();
    assert_eq!(process.resumed, vec![1, 2, 3, 7, 9]);
    assert!(process.frozen.is_empty());
    assert_eq!(session.pending_len(), 0);
}

#[test]
fn threads_that_come_in_small_pages_are_all_resumed() {
    let mut process = Process::with_threads(vec![1, 2, 3]);
    process.late = vec![4, 5, 6, 7, 8];
    let mut session = Session::with_page_capacity(process, 2);
    assert_eq!(session.pause(), Ok(()));
    let scan = session.snapshot_all_threads();
    assert_eq!(ids_of(&scan.reports), vec![1, 2, 3]);
    assert_eq!(session.resume_all(), Ok(()));
    assert_eq!(session.channel().resumed, vec![1, 2, 3, 4, 5, 6, 7, 8]);
    assert!(session.channel().frozen.is_empty());
}

#[test]
fn resume_of_a_thread_that_is_gone_does_not_end_the_session() {
    let mut process = Process::with_threads(vec![1, 2, 3]);
    process.refuse_resume_of.insert(2, E_NOT_FOUND);
    process.refuse_resume_of.insert(3, E_NOT_READY);
    let mut session = paused_session(process);
    let scan = session.snapshot_all_threads();
    assert_eq!(scan.failure, None);
    assert_eq!(session.resume_all(), Ok(()));
    assert_eq!(session.detach(), Ok(()));
    assert_eq!(session.current_state(), SessionState::Detached);
    assert_eq!(session.channel().resumed, vec![1, 2, 3]);
    assert_eq!(session.channel().calls.last().unwrap(), "release");
}

#[test]
fn thread_that_runs_already_is_passed_over() {
    let mut process = Process::with_threads(vec![1, 2]);
    process.refuse_resume_of.insert(1, E_ALREADY_IN_USE);
    let mut session = paused_session(process);
    session.snapshot_all_threads();
    assert_eq!(session.resume_all(), Ok(()));
    assert_eq!(session.channel().resumed, vec![1, 2]);
}

#[test]
fn other_refusal_to_resume_ends_the_operation() {
    let mut process = Process::with_threads(vec![1, 2, 3, 4]);
    process.refuse_resume_of.insert(2, E_INTERNAL);
    let mut session = paused_session(process);
    session.snapshot_all_threads();
    assert_eq!(session.resume_all(), Err(Error::ResumeRejected { tid: 2, code: E_INTERNAL }));
    assert_eq!(session.current_state(), SessionState::Resuming);
    assert_eq!(session.channel().resumed, vec![1, 2]);
    assert_eq!(session.pending_len(), 2);
    assert_eq!(session.detach(), Ok(()));
}

#[test]
fn refused_resume_of_the_process_is_an_error() {
    let mut process = Process::with_threads(vec![1, 2]);
    process.refuse.insert("resume process", E_INTERNAL);
    let mut session = paused_session(process);
    session.snapshot_all_threads();
    assert_eq!(
        session.resume_all(),
        Err(Error::ChannelFailure { operation: Operation::ResumeProcess, code: E_INTERNAL })
    );
    assert_eq!(session.current_state(), SessionState::Resuming);
    assert_eq!(session.pending_len(), 2);
    assert!(session.channel().resumed.is_empty());
}

#[test]
fn scan_goes_on_past_a_thread_without_state() {
    let mut process = Process::with_threads(vec![1, 2, 3]);
    process.unknown = vec![2];
    let mut session = paused_session(process);
    let scan = session.snapshot_all_threads();
    assert_eq!(scan.failure, None);
    assert_eq!(ids_of(&scan.reports), vec![1, 2, 3]);
    assert!(scan.reports[0].capture.is_ok());
    assert_eq!(*scan.reports[1].capture.as_ref().unwrap_err(), E_NOT_FOUND);
    assert!(scan.reports[2].capture.is_ok());
    assert_eq!(session.pending_len(), 3);
    assert_eq!(session.resume_all(), Ok(()));
    assert_eq!(session.channel().resumed, vec![1, 2, 3]);
}

#[test]
fn scan_that_fails_keeps_what_it_found() {
    let mut process = Process::with_threads((0..6).collect());
    process.garble_from = Some(2);
    let mut session = Session::with_page_capacity(process, 2);
    assert_eq!(session.pause(), Ok(()));
    let scan = session.snapshot_all_threads();
    assert_eq!(scan.failure, Some(Error::ProtocolViolation { operation: Operation::ListThreads }));
    assert_eq!(ids_of(&scan.reports), vec![0, 1]);
    assert_eq!(session.pending_len(), 2);
    assert_eq!(session.current_state(), SessionState::Paused);
}

#[test]
fn scan_can_be_made_again() {
    let mut session = paused_session(Process::with_threads(vec![1, 2]));
    let first = session.snapshot_all_threads();
    assert_eq!(ids_of(&first.reports), vec![1, 2]);
    let second = session.snapshot_all_threads();
    assert_eq!(second.failure, None);
    assert!(second.reports.is_empty());
    assert_eq!(session.pending_len(), 2);
}

#[test]
fn refused_pause_leaves_the_session_attached() {
    let mut process = Process::with_threads(vec![1]);
    process.refuse.insert("pause", E_INTERNAL);
    let mut session = Session::over(process);
    assert_eq!(
        session.pause(),
        Err(Error::ChannelFailure { operation: Operation::Pause, code: E_INTERNAL })
    );
    assert_eq!(session.current_state(), SessionState::Attached);
}

#[test]
fn operations_out_of_order_are_refused_and_ask_nothing() {
    let mut session = Session::over(Process::with_threads(vec![1]));
    let attached = Error::OutOfOrder { state: SessionState::Attached };
    let scan = session.snapshot_all_threads();
    assert_eq!(scan.failure, Some(attached));
    assert!(scan.reports.is_empty());
    assert_eq!(session.resume_all(), Err(attached));
    assert_eq!(session.detach(), Err(attached));
    assert_eq!(session.collect_stacks().failure, Some(attached));
    assert!(session.channel().calls.is_empty());

    assert_eq!(session.pause(), Ok(()));
    let paused = Error::OutOfOrder { state: SessionState::Paused };
    assert_eq!(session.pause(), Err(paused));
    assert_eq!(session.detach(), Err(paused));
    assert_eq!(session.channel().calls, vec!["pause"]);

    assert_eq!(session.resume_all(), Ok(()));
    let resuming = Error::OutOfOrder { state: SessionState::Resuming };
    assert_eq!(session.pause(), Err(resuming));
    assert_eq!(session.snapshot_all_threads().failure, Some(resuming));
    assert_eq!(session.resume_all(), Err(resuming));
}

#[test]
fn nothing_is_done_behind_the_detach() {
    let mut session = paused_session(Process::with_threads(vec![1]));
    assert_eq!(session.collect_stacks().failure, None);
    assert_eq!(session.current_state(), SessionState::Detached);
    let asked = session.channel().calls.len();
    let detached = Error::OutOfOrder { state: SessionState::Detached };
    assert_eq!(session.pause(), Err(detached));
    assert_eq!(session.snapshot_all_threads().failure, Some(detached));
    assert_eq!(session.resume_all(), Err(detached));
    assert_eq!(session.detach(), Err(detached));
    assert_eq!(session.collect_stacks().failure, Some(detached));
    assert_eq!(session.channel().calls.len(), asked);
}

#[test]
fn detach_makes_sure_that_the_handle_is_dead() {
    let mut session = paused_session(Process::with_threads(vec![1]));
    assert_eq!(session.resume_all(), Ok(()));
    assert_eq!(session.detach(), Ok(()));
    let calls = &session.channel().calls;
    assert_eq!(&calls[calls.len() - 2..], ["detach", "release"]);
    assert_eq!(session.channel().detached, true);
}

#[test]
fn handle_that_lives_on_behind_the_detach_is_an_error() {
    let mut process = Process::with_threads(vec![1]);
    process.release_accepts = true;
    let mut session = paused_session(process);
    assert_eq!(session.resume_all(), Ok(()));
    assert_eq!(
        session.detach(),
        Err(Error::ProtocolViolation { operation: Operation::Release })
    );
    assert_eq!(session.current_state(), SessionState::Detached);
}

#[test]
fn refused_detach_leaves_the_session_resuming() {
    let mut process = Process::with_threads(vec![1]);
    process.refuse.insert("detach", E_INTERNAL);
    let mut session = paused_session(process);
    assert_eq!(session.resume_all(), Ok(()));
    assert_eq!(
        session.detach(),
        Err(Error::ChannelFailure { operation: Operation::Detach, code: E_INTERNAL })
    );
    assert_eq!(session.current_state(), SessionState::Resuming);
    assert_eq!(session.channel().calls.last().unwrap(), "detach");
}

#[test]
fn collect_stacks_does_it_all() {
    let mut process = Process::with_threads(vec![1, 2]);
    process.late = vec![5];
    process.memory.insert(0x7000_1008, 0x40_1111);
    process.memory.insert(0x7000_1000, 0x7000_2000);
    process.memory.insert(0x7000_2008, 0x40_2222);
    process.memory.insert(0x7000_2000, 0);
    let mut session = paused_session(process);
    let scan = session.collect_stacks();
    assert_eq!(scan.failure, None);
    assert_eq!(ids_of(&scan.reports), vec![1, 2]);
    let first = scan.reports[0].capture.as_ref().unwrap();
    assert_eq!(first.backtrace.addresses(), &vec![0x40_1111, 0x40_2222]);
    let second = scan.reports[1].capture.as_ref().unwrap();
    assert_eq!(second.backtrace.addresses(), &vec![0x40_2222]);
    assert_eq!(session.current_state(), SessionState::Detached);
    assert_eq!(session.channel().resumed, vec![1, 2, 5]);
    assert!(session.channel().frozen.is_empty());
}

#[test]
fn collect_stacks_resumes_and_detaches_behind_a_failed_scan() {
    let mut process = Process::with_threads((0..6).collect());
    process.fail_listing = Some(1);
    let mut session = Session::with_page_capacity(process, 2);
    assert_eq!(session.pause(), Ok(()));
    let scan = session.collect_stacks();
    assert_eq!(
        scan.failure,
        Some(Error::ChannelFailure { operation: Operation::ListThreads, code: E_INTERNAL })
    );
    assert_eq!(ids_of(&scan.reports), vec![0, 1]);
    assert_eq!(session.channel().resumed, vec![0, 1, 2, 3, 4, 5]);
    assert!(session.channel().frozen.is_empty());
    assert_eq!(session.pending_len(), 0);
    assert_eq!(session.current_state(), SessionState::Detached);
    let calls = &session.channel().calls;
    assert_eq!(&calls[calls.len() - 2..], ["detach", "release"]);
}

#[test]
fn collect_stacks_does_not_detach_where_the_listing_stays_broken() {
    let mut process = Process::with_threads((0..6).collect());
    process.overfull_from = Some(2);
    let mut session = Session::with_page_capacity(process, 2);
    assert_eq!(session.pause(), Ok(()));
    let scan = session.collect_stacks();
    assert_eq!(scan.failure, Some(Error::ProtocolViolation { operation: Operation::ListThreads }));
    assert_eq!(ids_of(&scan.reports), vec![0, 1]);
    assert!(session.channel().calls.contains(&"resume process".to_string()));
    assert_eq!(session.channel().resumed, vec![0, 1]);
    assert_eq!(session.pending_len(), 0);
    assert_eq!(session.current_state(), SessionState::Resuming);
    assert!(!session.channel().calls.contains(&"detach".to_string()));
}

#[test]
fn collect_stacks_does_not_detach_behind_a_failed_resume() {
    let mut process = Process::with_threads(vec![1, 2, 3]);
    process.refuse_resume_of.insert(1, E_INTERNAL);
    let mut session = paused_session(process);
    let scan = session.collect_stacks();
    assert_eq!(scan.failure, Some(Error::ResumeRejected { tid: 1, code: E_INTERNAL }));
    assert_eq!(ids_of(&scan.reports), vec![1, 2, 3]);
    assert_eq!(session.current_state(), SessionState::Resuming);
    assert_eq!(session.pending_len(), 2);
    assert!(!session.channel().calls.contains(&"detach".to_string()));
    assert!(!session.channel().calls.contains(&"release".to_string()));
    assert_eq!(session.channel().calls.last().unwrap(), "resume 1");
}

#[test]
fn inspect_waits_between_the_pause_and_the_scan() {
    let mut process = Process::with_threads(vec![1, 2]);
    process.late = vec![3];
    let journal = process.journal.clone();
    let mut session = Session::over(process);
    let scan = session.inspect(|| journal.borrow_mut().push("settle".to_string()));
    assert_eq!(scan.failure, None);
    assert_eq!(ids_of(&scan.reports), vec![1, 2]);
    assert_eq!(*journal.borrow(), vec!["pause", "settle", "list", "list", "list", "list"]);
    assert_eq!(session.current_state(), SessionState::Detached);
    assert_eq!(session.channel().resumed, vec![1, 2, 3]);
    assert!(session.channel().frozen.is_empty());
}

#[test]
fn inspect_ends_at_a_refused_pause() {
    let mut process = Process::with_threads(vec![1, 2]);
    process.refuse.insert("pause", E_INTERNAL);
    let journal = process.journal.clone();
    let mut session = Session::over(process);
    let scan = session.inspect(|| journal.borrow_mut().push("settle".to_string()));
    assert_eq!(
        scan.failure,
        Some(Error::ChannelFailure { operation: Operation::Pause, code: E_INTERNAL })
    );
    assert!(scan.reports.is_empty());
    assert_eq!(session.current_state(), SessionState::Attached);
    assert_eq!(session.channel().calls, vec!["pause"]);
    assert_eq!(*journal.borrow(), vec!["pause"]);
}

#[test]
fn inspect_is_refused_out_of_order() {
    let mut session = paused_session(Process::with_threads(vec![1]));
    let scan = session.inspect(|| panic!("no wait is due"));
    assert_eq!(scan.failure, Some(Error::OutOfOrder { state: SessionState::Paused }));
    assert_eq!(session.channel().calls, vec!["pause"]);
}

#[test]
fn inspect_reaches_the_detach_past_a_thread_that_is_gone() {
    let mut process = Process::with_threads(vec![1, 2, 3]);
    process.refuse_resume_of.insert(2, E_NOT_FOUND);
    let mut session = Session::over(process);
    let scan = session.inspect(|| {});
    assert_eq!(scan.failure, None);
    assert_eq!(session.current_state(), SessionState::Detached);
    let calls = &session.channel().calls;
    assert_eq!(&calls[calls.len() - 2..], ["detach", "release"]);
}

#[test]
fn page_capacity_of_zero_is_taken_as_one() {
    let mut link = Traced::new(Process::with_threads(vec![4, 9]));
    assert_eq!(list_from(&mut link, 0, 0), Ok(vec![4, 9]));
    assert_eq!(link.channel().calls, vec!["list 0", "list 5", "list 10"]);
    assert_eq!(ThreadEnumerator::new(3, 0).capacity, 1);
    assert_eq!(ThreadEnumerator::new(3, 7).capacity, 7);

    let mut session = Session::with_page_capacity(Process::with_threads(vec![4, 9]), 0);
    assert_eq!(session.pause(), Ok(()));
    let scan = session.snapshot_all_threads();
    assert_eq!(ids_of(&scan.reports), vec![4, 9]);
    assert_eq!(session.resume_all(), Ok(()));
    assert_eq!(session.channel().resumed, vec![4, 9]);
}

#[test]
fn page_buffer_is_as_long_as_asked_up_to_the_limit() {
    assert_eq!(MAX_PAGE_CAPACITY, 4096);
    assert_eq!(page_buffer_len(0), 0);
    assert_eq!(page_buffer_len(1), 1);
    assert_eq!(page_buffer_len(64), 64);
    assert_eq!(page_buffer_len(4096), 4096);
    assert_eq!(page_buffer_len(4097), 4096);
    assert_eq!(page_buffer_len(usize::MAX), 4096);
}

#[test]
fn channel_handed_out_is_the_one_handed_in() {
    let mut process = Process::with_threads(vec![7, 8]);
    process.late = vec![11];
    let link = Traced::new(process);
    assert_eq!(link.channel().threads, vec![7, 8]);
    assert_eq!(link.channel().late, vec![11]);

    let session = Session::over(Process::with_threads(vec![3]));
    assert_eq!(session.channel().threads, vec![3]);
    assert!(session.channel().calls.is_empty());
}

#[test]
fn collect_stacks_does_not_detach_where_the_process_stays_held() {
    let mut process = Process::with_threads(vec![1, 2]);
    process.refuse.insert("resume process", E_INTERNAL);
    let mut session = paused_session(process);
    let scan = session.collect_stacks();
    assert_eq!(
        scan.failure,
        Some(Error::ChannelFailure { operation: Operation::ResumeProcess, code: E_INTERNAL })
    );
    assert_eq!(session.current_state(), SessionState::Resuming);
    assert_eq!(session.pending_len(), 2);
    assert_eq!(session.channel().calls.last().unwrap(), "resume process");
}

#[test]
fn command_reports_and_resumes_every_thread_of_many_pages_once() {
    let mut session = Session::over(Process::with_threads((0..130).collect()));
    let scan = session.inspect(|| {});
    assert_eq!(scan.failure, None);
    assert_eq!(scan.reports.len(), 130);
    assert_eq!(ids_of(&scan.reports), (0..130).collect::<Vec<u64>>());
    assert!(scan.reports.iter().all(|r| r.capture.is_ok()));
    let process = session.channel();
    assert_eq!(process.captured, (0..130).collect::<Vec<u64>>());
    assert_eq!(process.resumed, (0..130).collect::<Vec<u64>>());
    assert!(process.frozen.is_empty());
    assert_eq!(session.current_state(), SessionState::Detached);
    let lists: Vec<&String> = process.calls.iter().filter(|c| c.starts_with("list")).collect();
    assert_eq!(lists, vec!["list 0", "list 64", "list 128", "list 130", "list 130"]);
}

#[test]
fn command_ends_with_the_resumes_an_empty_page_and_the_detach() {
    let mut process = Process::with_threads(vec![1, 2]);
    process.refuse_resume_of.insert(2, E_NOT_FOUND);
    let mut session = Session::over(process);
    let scan = session.inspect(|| {});
    assert_eq!(scan.failure, None);
    assert_eq!(ids_of(&scan.reports), vec![1, 2]);
    assert_eq!(session.current_state(), SessionState::Detached);
    assert_eq!(
        session.channel().calls,
        vec![
            "pause",
            "list 0",
            "data 1",
            "data 2",
            "list 3",
            "resume process",
            "resume 1",
            "resume 2",
            "list 3",
            "detach",
            "release"
        ]
    );
}

#[test]
fn command_asks_in_order() {
    let mut process = Process::with_threads((1..8).collect());
    process.late = vec![20, 21, 22];
    let mut session = Session::with_page_capacity(process, 3);
    let scan = session.inspect(|| {});
    assert_eq!(scan.failure, None);
    let calls = &session.channel().calls;
    let place = |what: &str| calls.iter().position(|c| c == what).unwrap();
    let last = |prefix: &str| calls.iter().rposition(|c| c.starts_with(prefix)).unwrap();
    let is_thread_resume = |c: &String| c.starts_with("resume ") && c != "resume process";
    let first_thread_resume = calls.iter().position(is_thread_resume).unwrap();
    let last_thread_resume = calls.iter().rposition(is_thread_resume).unwrap();
    assert_eq!(place("pause"), 0);
    assert!(last("data") < place("resume process"));
    assert!(place("resume process") < first_thread_resume);
    assert!(last_thread_resume < place("detach"));
    assert!(last("list") < place("detach"));
    assert_eq!(calls.iter().filter(|c| *c == "detach").count(), 1);
    assert_eq!(calls.iter().filter(|c| *c == "resume process").count(), 1);
    assert_eq!(place("detach"), calls.len() - 2);
    assert_eq!(place("release"), calls.len() - 1);
    assert_eq!(session.channel().resumed, vec![1, 2, 3, 4, 5, 6, 7, 20, 21, 22]);
}

#[test]
fn command_does_not_detach_behind_a_failed_resume() {
    let mut process = Process::with_threads(vec![1, 2, 3]);
    process.refuse_resume_of.insert(2, E_INTERNAL);
    let mut session = Session::over(process);
    let scan = session.inspect(|| {});
    assert_eq!(scan.failure, Some(Error::ResumeRejected { tid: 2, code: E_INTERNAL }));
    assert_eq!(ids_of(&scan.reports), vec![1, 2, 3]);
    assert_eq!(session.current_state(), SessionState::Resuming);
    assert_eq!(session.pending_len(), 1);
    assert_eq!(session.channel().calls.last().unwrap(), "resume 2");
}
