//! The return addresses gathered from one thread's chain of frames.

use vstd::prelude::*;

verus! {

/// Deepest chain of frames that a walk follows.
pub const MAX_DEPTH: usize = 64;

/// Highest address that is shown as a return address.
pub const MAX_SHOWN_ADDRESS: u64 = 0x100_0000_0000;

/// The return addresses of one thread, innermost frame first. It has
/// `MAX_DEPTH` slots; the slots behind the gathered addresses hold zero.
/// Once built it does not change.
#[derive(Debug)]
pub struct Backtrace {
    frames: Vec<u64>,
}

/// Whether `address` is shown as a return address: it is not zero and not
/// above `MAX_SHOWN_ADDRESS`.
pub open spec fn is_shown(address: u64) -> bool {
    address != 0 && address <= MAX_SHOWN_ADDRESS
}

/// How many addresses from the front of `frames` are shown: those before the
/// first that is zero or lies above `MAX_SHOWN_ADDRESS`.
pub open spec fn shown_count(frames: Seq<u64>) -> nat
    decreases frames.len(),
{
    if frames.len() == 0 || !is_shown(frames[0]) {
        0
    } else {
        1 + shown_count(frames.drop_first())
    }
}

/// A count up to which every address is shown, and at which the addresses end
/// or one is not shown, is the count of shown addresses.
pub proof fn lemma_shown_count_is(frames: Seq<u64>, n: nat)
    requires
        n <= frames.len(),
        forall|i: int| 0 <= i < n ==> is_shown(#[trigger] frames[i]),
        n < frames.len() ==> !is_shown(frames[n as int]),
    ensures
        shown_count(frames) == n,
    decreases frames.len(),
{
    if n > 0 {
        assert(is_shown(frames[0]));
        let rest = frames.drop_first();
        assert forall|i: int| 0 <= i < n - 1 implies is_shown(#[trigger] rest[i]) by {
            assert(rest[i] == frames[i + 1]);
        }
        if n - 1 < rest.len() {
            assert(rest[n - 1] == frames[n as int]);
        }
        lemma_shown_count_is(rest, (n - 1) as nat);
    }
}

impl Backtrace {
    #[verifier::type_invariant]
    spec fn fits(self) -> bool {
        self.frames@.len() <= MAX_DEPTH
    }

    /// The gathered return addresses, innermost frame first.
    pub closed spec fn view(&self) -> Seq<u64> {
        self.frames@
    }

    /// What slot `i` holds: a gathered address, or zero behind them.
    pub open spec fn spec_slot(&self, i: int) -> u64 {
        if 0 <= i < self@.len() {
            self@[i]
        } else {
            0
        }
    }

    /// A backtrace without any address: every slot holds zero.
    pub fn new() -> (bt: Self)
        ensures
            bt@ == Seq::<u64>::empty(),
    {
        Backtrace { frames: Vec::new() }
    }

    /// The backtrace that holds `addresses`, unless they are more than it
    /// has slots.
    pub fn from_addresses(addresses: Vec<u64>) -> (r: Option<Self>)
        ensures
            addresses@.len() <= MAX_DEPTH <==> r is Some,
            r matches Some(bt) ==> bt@ == addresses@,
    {
        if addresses.len() <= MAX_DEPTH {
            Some(Backtrace { frames: addresses })
        } else {
            None
        }
    }

    /// The number of gathered addresses.
    pub fn len(&self) -> (n: usize)
        ensures
            n == self@.len(),
            n <= MAX_DEPTH,
    {
        proof {
            use_type_invariant(self);
        }
        self.frames.len()
    }

    /// The gathered addresses, innermost frame first.
    pub fn addresses(&self) -> (frames: &Vec<u64>)
        ensures
            frames@ == self@,
            frames@.len() <= MAX_DEPTH,
    {
        proof {
            use_type_invariant(self);
        }
        &self.frames
    }

    /// What slot `i` holds.
    pub fn slot(&self, i: usize) -> (value: u64)
        ensures
            value == self.spec_slot(i as int),
    {
        if i < self.frames.len() {
            self.frames[i]
        } else {
            0
        }
    }

    /// How many addresses from the front are shown to a reader.
    pub fn shown_len(&self) -> (n: usize)
        ensures
            n == shown_count(self@),
    {
        let mut n: usize = 0;
        while n < self.frames.len() && self.frames[n] != 0 && self.frames[n] <= MAX_SHOWN_ADDRESS
            invariant
                n <= self.frames@.len(),
                forall|i: int| 0 <= i < n ==> is_shown(#[trigger] self.frames@[i]),
            decreases self.frames@.len() - n,
        {
            n = n + 1;
        }
        proof {
            lemma_shown_count_is(self.frames@, n as nat);
        }
        n
    }
}

} // verus!
