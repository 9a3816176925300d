//! What a walk gathers from a memory that does not change.
//!
//! The memory is a map from the addresses of the mapped words to the words.
//! A chain of frames in it is given by its frame pointers and by the return
//! addresses of its frames.

use vstd::prelude::*;
use crate::backtrace::MAX_DEPTH;
use crate::walker::{lemma_fed_progress, plausible, Phase, WalkState, RETURN_SLOT_OFFSET};

verus! {

/// What a read of the word at `addr` gives: the word, or nothing where the
/// address is not mapped.
pub open spec fn peek(mem: Map<u64, u64>, addr: u64) -> Option<u64> {
    if mem.contains_key(addr) {
        Some(mem[addr])
    } else {
        None
    }
}

/// The state in which a walk over `mem` ends that stands at `s`.
#[verifier::opaque]
pub open spec fn run(mem: Map<u64, u64>, s: WalkState) -> WalkState
    decreases s.remaining(),
{
    match s.wanted() {
        None => s,
        Some(addr) => if s.bounded() {
            run(mem, s.fed(peek(mem, addr)))
        } else {
            s
        },
    }
}

/// A walk that wants nothing has ended.
pub proof fn lemma_run_ended(mem: Map<u64, u64>, s: WalkState)
    requires
        s.wanted() is None,
    ensures
        run(mem, s) == s,
{
    reveal(run);
}

/// A walk that wants a word ends as it ends after the read of that word.
pub proof fn lemma_run_step(mem: Map<u64, u64>, s: WalkState)
    requires
        s.bounded(),
        s.wanted() is Some,
    ensures
        run(mem, s) == run(mem, s.fed(peek(mem, s.wanted()->0))),
{
    reveal(run);
}

/// The return addresses that a walk over `mem` gathers from the chain of
/// frames that begins at `frame_ptr`.
pub open spec fn walk_mem(mem: Map<u64, u64>, frame_ptr: u64) -> Seq<u64> {
    run(mem, WalkState::start(frame_ptr)).frames
}

/// The frame from which a walk comes to frame `i` of a chain: none, written
/// as zero, for the first frame.
pub open spec fn came_from(fps: Seq<u64>, i: int) -> u64 {
    if i == 0 {
        0
    } else {
        fps[i - 1]
    }
}

/// The address of the word that holds the return address of the frame at
/// `frame_ptr`.
pub open spec fn return_slot(frame_ptr: u64) -> u64 {
    (frame_ptr + RETURN_SLOT_OFFSET) as u64
}

/// Whether `mem` holds frame `i` of a chain whole: the frame lies where a
/// walk goes on, its return address is `rets[i]`, and the frame pointer that
/// it saved is the next of `fps`.
pub open spec fn holds_frame(mem: Map<u64, u64>, fps: Seq<u64>, rets: Seq<u64>, i: int) -> bool {
    &&& plausible(fps[i], came_from(fps, i))
    &&& peek(mem, return_slot(fps[i])) == Some(rets[i])
    &&& peek(mem, fps[i]) == Some(fps[i + 1])
}

/// Whether `mem` holds the first `n` frames of a chain whole.
pub open spec fn holds_frames(mem: Map<u64, u64>, fps: Seq<u64>, rets: Seq<u64>, n: nat) -> bool {
    &&& n <= MAX_DEPTH
    &&& n < fps.len()
    &&& n <= rets.len()
    &&& forall|i: int| 0 <= i < n ==> #[trigger] holds_frame(mem, fps, rets, i)
}

/// The state of a walk that has passed the first `n` frames of a chain.
pub open spec fn past_frames(fps: Seq<u64>, rets: Seq<u64>, n: nat) -> WalkState {
    WalkState {
        frame_ptr: fps[n as int],
        previous: came_from(fps, n as int),
        phase: Phase::ReturnAddress,
        stopped: false,
        frames: rets.take(n as int),
    }
}

/// A walk over a memory that holds the first `n` frames of a chain whole
/// passes them, and ends as a walk ends that goes on behind them.
pub proof fn lemma_run_passes_frames(mem: Map<u64, u64>, fps: Seq<u64>, rets: Seq<u64>, n: nat)
    requires
        holds_frames(mem, fps, rets, n),
    ensures
        run(mem, WalkState::start(fps[0])) == run(mem, past_frames(fps, rets, n)),
    decreases n,
{
    if n == 0 {
        assert(rets.take(0) =~= Seq::<u64>::empty());
    } else {
        let m = (n - 1) as nat;
        lemma_run_passes_frames(mem, fps, rets, m);
        let s = past_frames(fps, rets, m);
        assert(holds_frame(mem, fps, rets, m as int));
        assert(s.wanted() == Some(return_slot(fps[m as int])));
        let t = s.fed(Some(rets[m as int]));
        lemma_run_step(mem, s);
        assert(t.wanted() == Some(fps[m as int]));
        let u = t.fed(Some(fps[n as int]));
        lemma_run_step(mem, t);
        assert(rets.take(m as int).push(rets[m as int]) =~= rets.take(n as int));
        assert(u == past_frames(fps, rets, n));
    }
}

/// A chain of `n` frames that `mem` holds whole, and that ends because it is
/// as deep as a walk goes or because its last frame saved a frame pointer
/// with which no walk goes on, gives exactly the `n` return addresses of its
/// frames, innermost first; so none of them is zero where no frame returns
/// to zero.
pub proof fn lemma_walk_of_whole_chain(mem: Map<u64, u64>, fps: Seq<u64>, rets: Seq<u64>)
    requires
        holds_frames(mem, fps, rets, rets.len()),
        rets.len() == MAX_DEPTH || !plausible(
            fps[rets.len() as int],
            came_from(fps, rets.len() as int),
        ),
    ensures
        walk_mem(mem, fps[0]) == rets,
        (forall|i: int| 0 <= i < rets.len() ==> rets[i] != 0) ==> forall|i: int|
            0 <= i < rets.len() ==> walk_mem(mem, fps[0])[i] != 0,
{
    let n = rets.len();
    lemma_run_passes_frames(mem, fps, rets, n);
    let s = past_frames(fps, rets, n);
    assert(rets.take(n as int) =~= rets);
    assert(s.wanted() is None);
    lemma_run_ended(mem, s);
}

/// A chain whose frame `n` saved its own address, after `n` frames that
/// `mem` holds whole, gives exactly the return addresses of those `n`
/// frames: the walk stops where the frame pointer repeats the one before.
pub proof fn lemma_walk_stops_at_repeat(mem: Map<u64, u64>, fps: Seq<u64>, rets: Seq<u64>)
    requires
        rets.len() >= 1,
        holds_frames(mem, fps, rets, rets.len()),
        fps[rets.len() as int] == fps[rets.len() - 1],
    ensures
        walk_mem(mem, fps[0]) == rets,
{
    lemma_walk_of_whole_chain(mem, fps, rets);
}

/// A walk from the frame pointer zero gathers nothing.
pub proof fn lemma_walk_of_null(mem: Map<u64, u64>)
    ensures
        walk_mem(mem, 0) == Seq::<u64>::empty(),
{
    let s = WalkState::start(0);
    assert(s.wanted() is None);
    lemma_run_ended(mem, s);
}

/// Where the return address of frame `n` of a chain cannot be read, after
/// `n` frames that `mem` holds whole, the walk gives exactly the return
/// addresses of those `n` frames.
pub proof fn lemma_walk_cut_at_return_address(mem: Map<u64, u64>, fps: Seq<u64>, rets: Seq<u64>)
    requires
        holds_frames(mem, fps, rets, rets.len()),
        peek(mem, return_slot(fps[rets.len() as int])) is None,
    ensures
        walk_mem(mem, fps[0]) == rets,
{
    let n = rets.len();
    lemma_run_passes_frames(mem, fps, rets, n);
    let s = past_frames(fps, rets, n);
    assert(rets.take(n as int) =~= rets);
    if s.wanted() is None {
        lemma_run_ended(mem, s);
    } else {
        let t = s.fed(None);
        lemma_run_step(mem, s);
        assert(t.wanted() is None);
        lemma_run_ended(mem, t);
    }
}

/// Where the frame pointer that the last frame of a chain saved cannot be
/// read, and `mem` holds the frames before it whole and the return address
/// of the last, the walk gives exactly the return addresses of all the
/// frames, that of the last among them. The chain is no deeper than a walk
/// goes.
pub proof fn lemma_walk_cut_at_caller_frame(mem: Map<u64, u64>, fps: Seq<u64>, rets: Seq<u64>)
    requires
        1 <= rets.len() <= MAX_DEPTH,
        holds_frames(mem, fps, rets, (rets.len() - 1) as nat),
        plausible(fps[rets.len() - 1], came_from(fps, rets.len() - 1)),
        peek(mem, return_slot(fps[rets.len() - 1])) == Some(rets[rets.len() - 1]),
        peek(mem, fps[rets.len() - 1]) is None,
    ensures
        walk_mem(mem, fps[0]) == rets,
{
    let m = (rets.len() - 1) as nat;
    lemma_run_passes_frames(mem, fps, rets, m);
    let s = past_frames(fps, rets, m);
    assert(s.wanted() == Some(return_slot(fps[m as int])));
    let t = s.fed(Some(rets[m as int]));
    lemma_run_step(mem, s);
    assert(t.wanted() == Some(fps[m as int]));
    let u = t.fed(None);
    lemma_run_step(mem, t);
    assert(u.wanted() is None);
    lemma_run_ended(mem, u);
    assert(rets.take(m as int).push(rets[m as int]) =~= rets);
    assert(u.frames == rets);
}

/// A walk comes to an end, and gathers no more addresses than a backtrace
/// has slots.
pub proof fn lemma_run_bounded(mem: Map<u64, u64>, s: WalkState)
    requires
        s.bounded(),
    ensures
        run(mem, s).bounded(),
        run(mem, s).wanted() is None,
    decreases s.remaining(),
{
    match s.wanted() {
        None => {
            lemma_run_ended(mem, s);
        },
        Some(addr) => {
            lemma_fed_progress(s, peek(mem, addr));
            lemma_run_step(mem, s);
            lemma_run_bounded(mem, s.fed(peek(mem, addr)));
        },
    }
}

/// Whatever the memory holds, a walk over it gathers no more addresses
/// than a backtrace has slots.
pub proof fn lemma_walk_is_bounded(mem: Map<u64, u64>, frame_ptr: u64)
    ensures
        walk_mem(mem, frame_ptr).len() <= MAX_DEPTH,
{
    lemma_run_bounded(mem, WalkState::start(frame_ptr));
}

} // verus!
