//! Following a chain of frames, one read at a time.
//!
//! A frame pointer is the address of a frame. The word at that address is
//! the frame pointer of the caller's frame, and the word behind it is the
//! address to which the frame returns. A walker follows such a chain without
//! reading anything itself: it says which word it wants, and is handed what a
//! read of that word gave.

use vstd::prelude::*;
use crate::backtrace::{Backtrace, MAX_DEPTH};

verus! {

/// Lowest address at which a frame can lie.
pub const MIN_FRAME_ADDRESS: u64 = 0x1_0000;

/// Distance from a frame pointer to the word that holds the return address.
pub const RETURN_SLOT_OFFSET: u64 = 8;

/// Highest frame pointer whose return address still has an address.
pub const MAX_FRAME_ADDRESS: u64 = 0xffff_ffff_ffff_fff7;

/// Which word of the current frame a walk reads next.
#[derive(Clone, Copy, Debug, PartialEq, Eq, Structural)]
pub enum Phase {
    /// The address to which the frame returns.
    ReturnAddress,
    /// The frame pointer of the caller's frame.
    CallerFrame,
}

/// Where a walk stands.
pub struct WalkState {
    /// The frame that the walk is at.
    pub frame_ptr: u64,
    /// The frame that the walk was at before, zero at the first frame.
    pub previous: u64,
    /// The word that is read next.
    pub phase: Phase,
    /// Whether a read has failed.
    pub stopped: bool,
    /// The return addresses gathered so far, innermost frame first.
    pub frames: Seq<u64>,
}

/// Whether a walk that came from the frame at `previous` goes on to the frame
/// at `frame_ptr`: not where the frame pointer is zero, repeats the frame
/// before, or lies where no frame can lie.
pub open spec fn plausible(frame_ptr: u64, previous: u64) -> bool {
    &&& frame_ptr != 0
    &&& frame_ptr != previous
    &&& MIN_FRAME_ADDRESS <= frame_ptr <= MAX_FRAME_ADDRESS
}

impl WalkState {
    /// The state in which a walk from `frame_ptr` begins.
    pub open spec fn start(frame_ptr: u64) -> WalkState {
        WalkState {
            frame_ptr,
            previous: 0,
            phase: Phase::ReturnAddress,
            stopped: false,
            frames: Seq::empty(),
        }
    }

    /// The address of the word that the walk wants to read next, if it goes
    /// on at all.
    pub open spec fn wanted(self) -> Option<u64> {
        if self.stopped {
            None
        } else {
            match self.phase {
                Phase::ReturnAddress => if self.frames.len() < MAX_DEPTH && plausible(
                    self.frame_ptr,
                    self.previous,
                ) {
                    Some((self.frame_ptr + RETURN_SLOT_OFFSET) as u64)
                } else {
                    None
                },
                Phase::CallerFrame => Some(self.frame_ptr),
            }
        }
    }

    /// The state after the wanted word was read and gave `answer`: the word,
    /// or nothing where the read failed. A walk that wants nothing stays as
    /// it is.
    pub open spec fn fed(self, answer: Option<u64>) -> WalkState {
        if self.wanted() is None {
            self
        } else {
            match answer {
                None => WalkState { stopped: true, ..self },
                Some(word) => match self.phase {
                    Phase::ReturnAddress => WalkState {
                        phase: Phase::CallerFrame,
                        frames: self.frames.push(word),
                        ..self
                    },
                    Phase::CallerFrame => WalkState {
                        frame_ptr: word,
                        previous: self.frame_ptr,
                        phase: Phase::ReturnAddress,
                        ..self
                    },
                },
            }
        }
    }

    /// A bound on the number of reads that the walk can still make.
    pub open spec fn remaining(self) -> nat {
        if self.stopped || self.frames.len() > MAX_DEPTH {
            0
        } else {
            match self.phase {
                Phase::ReturnAddress => (2 * (MAX_DEPTH - self.frames.len()) + 1) as nat,
                Phase::CallerFrame => (2 * (MAX_DEPTH - self.frames.len()) + 2) as nat,
            }
        }
    }

    /// Whether the walk holds no more addresses than a backtrace has slots.
    pub open spec fn bounded(self) -> bool {
        self.frames.len() <= MAX_DEPTH
    }
}

/// Every read brings a walk nearer to its end, and none makes it hold more
/// addresses than a backtrace has slots.
pub proof fn lemma_fed_progress(s: WalkState, answer: Option<u64>)
    requires
        s.bounded(),
        s.wanted() is Some,
    ensures
        s.fed(answer).bounded(),
        s.fed(answer).remaining() < s.remaining(),
{
}

/// A walker: the state of a walk, held by the one who does the reads.
#[derive(Debug)]
pub struct Walker {
    frame_ptr: u64,
    previous: u64,
    phase: Phase,
    stopped: bool,
    frames: Vec<u64>,
}

impl Walker {
    #[verifier::type_invariant]
    spec fn fits(self) -> bool {
        self.frames@.len() <= MAX_DEPTH
    }

    /// Where the walk stands.
    pub closed spec fn view(&self) -> WalkState {
        WalkState {
            frame_ptr: self.frame_ptr,
            previous: self.previous,
            phase: self.phase,
            stopped: self.stopped,
            frames: self.frames@,
        }
    }

    /// A walker at the start of the chain of frames that begins at
    /// `frame_ptr`.
    pub fn new(frame_ptr: u64) -> (w: Self)
        ensures
            w@ == WalkState::start(frame_ptr),
    {
        Walker {
            frame_ptr,
            previous: 0,
            phase: Phase::ReturnAddress,
            stopped: false,
            frames: Vec::new(),
        }
    }

    /// The address of the word that the walker wants to have read next, or
    /// nothing where the walk is at its end.
    pub fn wanted(&self) -> (r: Option<u64>)
        ensures
            r == self@.wanted(),
            self@.bounded(),
    {
        proof {
            use_type_invariant(self);
        }
        if self.stopped {
            None
        } else {
            match self.phase {
                Phase::ReturnAddress => {
                    if self.frames.len() < MAX_DEPTH && self.frame_ptr != 0 && self.frame_ptr
                        != self.previous && MIN_FRAME_ADDRESS <= self.frame_ptr && self.frame_ptr
                        <= MAX_FRAME_ADDRESS {
                        Some(self.frame_ptr + RETURN_SLOT_OFFSET)
                    } else {
                        None
                    }
                },
                Phase::CallerFrame => Some(self.frame_ptr),
            }
        }
    }

    /// Hands the walker what the read of the wanted word gave: the word, or
    /// nothing where the read failed.
    pub fn supply(self, answer: Option<u64>) -> (next: Self)
        ensures
            next@ == self@.fed(answer),
    {
        proof {
            use_type_invariant(&self);
        }
        let wanted = self.wanted();
        let Walker { frame_ptr, previous, phase, stopped, frames } = self;
        if wanted.is_none() {
            Walker { frame_ptr, previous, phase, stopped, frames }
        } else {
            match answer {
                None => Walker { frame_ptr, previous, phase, stopped: true, frames },
                Some(word) => match phase {
                    Phase::ReturnAddress => {
                        let mut frames = frames;
                        frames.push(word);
                        Walker { frame_ptr, previous, phase: Phase::CallerFrame, stopped, frames }
                    },
                    Phase::CallerFrame => Walker {
                        frame_ptr: word,
                        previous: frame_ptr,
                        phase: Phase::ReturnAddress,
                        stopped,
                        frames,
                    },
                },
            }
        }
    }

    /// The addresses that the walker has gathered.
    pub fn finish(self) -> (bt: Backtrace)
        ensures
            bt@ == self@.frames,
    {
        proof {
            use_type_invariant(&self);
        }
        match Backtrace::from_addresses(self.frames) {
            Some(bt) => bt,
            None => Backtrace::new(),
        }
    }
}

} // verus!
