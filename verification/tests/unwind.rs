use std::collections::HashMap;

use mdbg::backtrace::{Backtrace, MAX_DEPTH, MAX_SHOWN_ADDRESS};
use mdbg::channel::{DebugChannel, Traced};
use mdbg::errors::{check_word, ReadFailure, E_NOT_FOUND, WORD_SIZE};
use mdbg::snapshot::ThreadRuntimeSnapshot;
use mdbg::unwind::{read_u64, walk};
use mdbg::walker::{Walker, MAX_FRAME_ADDRESS, MIN_FRAME_ADDRESS, RETURN_SLOT_OFFSET};

/// A debuggee that is nothing but memory: the mapped words, and the
/// addresses that were read.
struct Memory {
    words: HashMap<u64, u64>,
    short: Vec<u64>,
    reads: Vec<u64>,
}

impl Memory {
    fn new() -> Self {
        Memory { words: HashMap::new(), short: Vec::new(), reads: Vec::new() }
    }

    /// Puts a frame at `at` that returns to `ret` and was called from the
    /// frame at `caller`.
    fn frame(mut self, at: u64, ret: u64, caller: u64) -> Self {
        self.words.insert(at, caller);
        self.words.insert(at + 8, ret);
        self
    }
}

impl DebugChannel for Memory {
    fn pause(&mut self) -> Result<(), u16> {
        panic!("a walk pauses nothing")
    }

    fn list_threads(&mut self, _start_tid: u64, _capacity: usize) -> Result<(usize, Vec<u64>), u16> {
        panic!("a walk lists nothing")
    }

    fn thread_data(&mut self, _tid: u64) -> Result<ThreadRuntimeSnapshot, u16> {
        panic!("a walk asks for no thread")
    }

    fn read_word(&mut self, addr: u64) -> Result<(usize, u64), u16> {
        self.reads.push(addr);
        if self.short.contains(&addr) {
            return Ok((4, 0xdead));
        }
        match self.words.get(&addr) {
            Some(word) => Ok((8, *word)),
            None => Err(E_NOT_FOUND),
        }
    }

    fn resume_process(&mut self) -> Result<(), u16> {
        panic!("a walk resumes nothing")
    }

    fn resume_thread(&mut self, _tid: u64) -> Result<(), u16> {
        panic!("a walk resumes nothing")
    }

    fn detach(&mut self) -> Result<(), u16> {
        panic!("a walk detaches nothing")
    }

    fn release(&mut self) -> Result<(), u16> {
        panic!("a walk releases nothing")
    }
}

fn thread_at(frame_pointer: u64) -> ThreadRuntimeSnapshot {
    ThreadRuntimeSnapshot {
        tid: 1,
        status_code: 5,
        syscall_num: 0,
        syscall_op: 0,
        instruction_pointer: 0x40_0000,
        frame_pointer,
    }
}

fn walk_over(memory: Memory, frame_pointer: u64) -> (Vec<u64>, Vec<u64>) {
    let mut link = Traced::new(memory);
    let backtrace = walk(&mut link, &thread_at(frame_pointer));
    (backtrace.addresses().clone(), link.channel().reads.clone())
}

#[test]
fn constants_have_their_values() {
    assert_eq!(MAX_DEPTH, 64);
    assert_eq!(MIN_FRAME_ADDRESS, 1024 * 64);
    assert_eq!(RETURN_SLOT_OFFSET, 8);
    assert_eq!(MAX_FRAME_ADDRESS, u64::MAX - 8);
    assert_eq!(MAX_SHOWN_ADDRESS, 1u64 << 40);
    assert_eq!(WORD_SIZE, 8);
}

#[test]
fn whole_chain_gives_every_return_address() {
    let memory = Memory::new()
        .frame(0x7000_1000, 0x40_1111, 0x7000_2000)
        .frame(0x7000_2000, 0x40_2222, 0x7000_3000)
        .frame(0x7000_3000, 0x40_3333, 0);
    let (addresses, reads) = walk_over(memory, 0x7000_1000);
    assert_eq!(addresses, vec![0x40_1111, 0x40_2222, 0x40_3333]);
    assert_eq!(
        reads,
        vec![0x7000_1008, 0x7000_1000, 0x7000_2008, 0x7000_2000, 0x7000_3008, 0x7000_3000]
    );
    assert!(addresses.iter().all(|a| *a != 0));
}

#[test]
fn null_frame_pointer_gives_all_zero_backtrace() {
    let mut link = Traced::new(Memory::new().frame(0x7000_1000, 0x40_1111, 0));
    let backtrace = walk(&mut link, &thread_at(0));
    assert_eq!(backtrace.len(), 0);
    for i in 0..MAX_DEPTH {
        assert_eq!(backtrace.slot(i), 0);
    }
    assert!(link.channel().reads.is_empty());
}

#[test]
fn frame_that_saved_itself_ends_the_walk() {
    let memory = Memory::new().frame(0x1_0000, 0x40_1111, 0x1_0000);
    let (addresses, reads) = walk_over(memory, 0x1_0000);
    assert_eq!(addresses, vec![0x40_1111]);
    assert_eq!(reads, vec![0x1_0008, 0x1_0000]);
}

#[test]
fn repeat_after_several_frames_ends_the_walk() {
    let memory = Memory::new()
        .frame(0x7000_1000, 0x40_1111, 0x7000_2000)
        .frame(0x7000_2000, 0x40_2222, 0x7000_3000)
        .frame(0x7000_3000, 0x40_3333, 0x7000_3000);
    let (addresses, _) = walk_over(memory, 0x7000_1000);
    assert_eq!(addresses, vec![0x40_1111, 0x40_2222, 0x40_3333]);
}

#[test]
fn cycle_of_two_frames_ends_at_the_depth_limit() {
    let memory = Memory::new()
        .frame(0x7000_1000, 0x40_1111, 0x7000_2000)
        .frame(0x7000_2000, 0x40_2222, 0x7000_1000);
    let (addresses, reads) = walk_over(memory, 0x7000_1000);
    assert_eq!(addresses.len(), MAX_DEPTH);
    assert_eq!(reads.len(), 2 * MAX_DEPTH);
    for (i, address) in addresses.iter().enumerate() {
        assert_eq!(*address, if i % 2 == 0 { 0x40_1111 } else { 0x40_2222 });
    }
}

#[test]
fn unreadable_return_address_cuts_the_walk_before_it() {
    let mut memory = Memory::new()
        .frame(0x7000_1000, 0x40_1111, 0x7000_2000)
        .frame(0x7000_2000, 0x40_2222, 0x7000_3000)
        .frame(0x7000_3000, 0x40_3333, 0);
    memory.words.remove(&0x7000_3008);
    let (addresses, reads) = walk_over(memory, 0x7000_1000);
    assert_eq!(addresses, vec![0x40_1111, 0x40_2222]);
    assert_eq!(reads.last(), Some(&0x7000_3008));
    assert_eq!(reads.len(), 5);
}

#[test]
fn unreadable_first_word_gives_nothing() {
    let (addresses, reads) = walk_over(Memory::new(), 0x7000_1000);
    assert!(addresses.is_empty());
    assert_eq!(reads, vec![0x7000_1008]);
}

#[test]
fn unreadable_caller_frame_keeps_the_return_address() {
    let mut memory = Memory::new()
        .frame(0x7000_1000, 0x40_1111, 0x7000_2000)
        .frame(0x7000_2000, 0x40_2222, 0x7000_3000);
    memory.words.remove(&0x7000_2000);
    let (addresses, reads) = walk_over(memory, 0x7000_1000);
    assert_eq!(addresses, vec![0x40_1111, 0x40_2222]);
    assert_eq!(reads, vec![0x7000_1008, 0x7000_1000, 0x7000_2008, 0x7000_2000]);
}

#[test]
fn short_read_ends_the_walk() {
    let mut memory = Memory::new()
        .frame(0x7000_1000, 0x40_1111, 0x7000_2000)
        .frame(0x7000_2000, 0x40_2222, 0);
    memory.short.push(0x7000_2008);
    let (addresses, _) = walk_over(memory, 0x7000_1000);
    assert_eq!(addresses, vec![0x40_1111]);
}

#[test]
fn chain_deeper_than_the_limit_is_cut_at_the_limit() {
    let mut memory = Memory::new();
    for i in 0..100u64 {
        memory = memory.frame(0x7000_0000 + 0x100 * i, 0x40_0000 + i, 0x7000_0000 + 0x100 * (i + 1));
    }
    let (addresses, reads) = walk_over(memory, 0x7000_0000);
    assert_eq!(addresses.len(), MAX_DEPTH);
    assert_eq!(addresses[0], 0x40_0000);
    assert_eq!(addresses[63], 0x40_0000 + 63);
    assert_eq!(reads.len(), 128);
}

#[test]
fn chain_of_exactly_the_limit_is_whole() {
    let mut memory = Memory::new();
    for i in 0..64u64 {
        let caller = if i == 63 { 0 } else { 0x7000_0000 + 0x100 * (i + 1) };
        memory = memory.frame(0x7000_0000 + 0x100 * i, 0x40_0000 + i, caller);
    }
    let (addresses, _) = walk_over(memory, 0x7000_0000);
    let expected: Vec<u64> = (0..64u64).map(|i| 0x40_0000 + i).collect();
    assert_eq!(addresses, expected);
}

#[test]
fn frame_pointer_below_the_lowest_frame_is_not_read() {
    let memory = Memory::new().frame(0xffff, 0x40_1111, 0);
    let (addresses, reads) = walk_over(memory, 0xffff);
    assert!(addresses.is_empty());
    assert!(reads.is_empty());

    let memory = Memory::new()
        .frame(0x7000_1000, 0x40_1111, 0x800)
        .frame(0x800, 0x40_2222, 0);
    let (addresses, reads) = walk_over(memory, 0x7000_1000);
    assert_eq!(addresses, vec![0x40_1111]);
    assert_eq!(reads, vec![0x7000_1008, 0x7000_1000]);
}

#[test]
fn lowest_frame_address_is_read() {
    let memory = Memory::new().frame(0x1_0000, 0x40_1111, 0);
    let (addresses, _) = walk_over(memory, 0x1_0000);
    assert_eq!(addresses, vec![0x40_1111]);
}

#[test]
fn frame_pointer_at_the_top_of_memory_is_not_read() {
    let (addresses, reads) = walk_over(Memory::new(), u64::MAX - 7);
    assert!(addresses.is_empty());
    assert!(reads.is_empty());
    let (_, reads) = walk_over(Memory::new(), u64::MAX - 8);
    assert_eq!(reads, vec![u64::MAX]);
}

#[test]
fn zero_return_address_is_kept_in_its_slot() {
    let memory = Memory::new()
        .frame(0x7000_1000, 0, 0x7000_2000)
        .frame(0x7000_2000, 0x40_2222, 0);
    let mut link = Traced::new(memory);
    let backtrace = walk(&mut link, &thread_at(0x7000_1000));
    assert_eq!(backtrace.addresses(), &vec![0, 0x40_2222]);
    assert_eq!(backtrace.shown_len(), 0);
}

#[test]
fn read_u64_hands_out_the_word() {
    let mut link = Traced::new(Memory::new().frame(0x7000_1000, 0x40_1111, 0x7000_2000));
    assert_eq!(read_u64(&mut link, 0x7000_1008), Ok(0x40_1111));
    assert_eq!(read_u64(&mut link, 0x7000_1000), Ok(0x7000_2000));
    assert_eq!(link.channel().reads, vec![0x7000_1008, 0x7000_1000]);
}

#[test]
fn read_u64_fails_on_unmapped_and_short_reads() {
    let mut memory = Memory::new().frame(0x7000_1000, 0x40_1111, 0);
    memory.short.push(0x7000_1000);
    let mut link = Traced::new(memory);
    assert_eq!(read_u64(&mut link, 0x9000), Err(ReadFailure::Rejected { code: E_NOT_FOUND }));
    assert_eq!(read_u64(&mut link, 0x7000_1000), Err(ReadFailure::WrongSize { size: 4 }));
    assert_eq!(link.channel().reads.len(), 2);
}

#[test]
fn check_word_judges_each_answer() {
    assert_eq!(check_word(Ok((8, 42))), Ok(42));
    assert_eq!(check_word(Ok((7, 42))), Err(ReadFailure::WrongSize { size: 7 }));
    assert_eq!(check_word(Ok((0, 0))), Err(ReadFailure::WrongSize { size: 0 }));
    assert_eq!(check_word(Ok((16, 42))), Err(ReadFailure::WrongSize { size: 16 }));
    assert_eq!(check_word(Err(17)), Err(ReadFailure::Rejected { code: 17 }));
}

#[test]
fn walker_says_what_it_wants_and_takes_what_it_gets() {
    let walker = Walker::new(0x7000_1000);
    assert_eq!(walker.wanted(), Some(0x7000_1008));
    let walker = walker.supply(Some(0x40_1111));
    assert_eq!(walker.wanted(), Some(0x7000_1000));
    let walker = walker.supply(Some(0x7000_2000));
    assert_eq!(walker.wanted(), Some(0x7000_2008));
    let walker = walker.supply(None);
    assert_eq!(walker.wanted(), None);
    let walker = walker.supply(Some(0x40_9999));
    assert_eq!(walker.wanted(), None);
    assert_eq!(walker.finish().addresses(), &vec![0x40_1111]);
}

#[test]
fn walker_at_null_wants_nothing() {
    let walker = Walker::new(0);
    assert_eq!(walker.wanted(), None);
    assert_eq!(walker.finish().len(), 0);
}

#[test]
fn backtrace_holds_at_most_its_slots() {
    assert!(Backtrace::from_addresses(vec![1; 64]).is_some());
    assert!(Backtrace::from_addresses(vec![1; 65]).is_none());
    let backtrace = Backtrace::from_addresses(vec![5, 6]).unwrap();
    assert_eq!(backtrace.len(), 2);
    assert_eq!(backtrace.slot(0), 5);
    assert_eq!(backtrace.slot(1), 6);
    assert_eq!(backtrace.slot(2), 0);
    assert_eq!(backtrace.slot(63), 0);
    assert_eq!(backtrace.slot(1000), 0);
    assert_eq!(Backtrace::new().len(), 0);
}

#[test]
fn shown_addresses_end_at_zero_or_above_the_limit() {
    let shown = |addresses: Vec<u64>| Backtrace::from_addresses(addresses).unwrap().shown_len();
    assert_eq!(shown(vec![]), 0);
    assert_eq!(shown(vec![0x40_1111, 0x40_2222]), 2);
    assert_eq!(shown(vec![0x40_1111, 0, 0x40_2222]), 1);
    assert_eq!(shown(vec![0x40_1111, (1u64 << 40) + 1, 0x40_2222]), 1);
    assert_eq!(shown(vec![0x40_1111, 1u64 << 40, 0x40_2222]), 3);
    assert_eq!(shown(vec![0, 0x40_1111]), 0);
    assert_eq!(shown(vec![u64::MAX]), 0);
}

#[test]
fn cycle_below_the_lowest_frame_is_not_walked() {
    let memory = Memory::new().frame(0x1000, 0x40_1111, 0x2000).frame(0x2000, 0x40_2222, 0x1000);
    let (addresses, reads) = walk_over(memory, 0x1000);
    assert!(addresses.is_empty());
    assert!(reads.is_empty());
}
