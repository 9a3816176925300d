//! Reading the debuggee's memory and walking a thread's frames through it.

use vstd::prelude::*;
use crate::backtrace::Backtrace;
use crate::chain::{lemma_run_ended, lemma_run_step, peek, run, walk_mem};
use crate::channel::{DebugChannel, Event, Traced};
use crate::errors::{check_word, word_verdict, ReadFailure};
use crate::snapshot::ThreadRuntimeSnapshot;
use crate::walker::{lemma_fed_progress, WalkState, Walker};

verus! {

/// What the answer to a read hands to a walk: the word, or nothing where
/// the read failed.
pub open spec fn word_of(answer: Result<(usize, u64), u16>) -> Option<u64> {
    match word_verdict(answer) {
        Ok(word) => Some(word),
        Err(_) => None,
    }
}

/// The state of a walk that began at `s`, after the reads in `events`; or
/// nothing, where `events` are not, one by one, the reads that the walk
/// wanted.
pub open spec fn replay(s: WalkState, events: Seq<Event>) -> Option<WalkState>
    decreases events.len(),
{
    if events.len() == 0 {
        Some(s)
    } else {
        match replay(s, events.drop_last()) {
            None => None,
            Some(t) => match events.last() {
                Event::ReadWord { addr, answer } => if t.wanted() == Some(addr) {
                    Some(t.fed(word_of(answer)))
                } else {
                    None
                },
                _ => None,
            },
        }
    }
}

/// What the walk from `frame_ptr` gathered whose reads, from the first to
/// the last, are `events`; or nothing, where `events` are not the trace of
/// such a walk.
pub open spec fn walk_trace(frame_ptr: u64, events: Seq<Event>) -> Option<Seq<u64>> {
    match replay(WalkState::start(frame_ptr), events) {
        Some(t) => if t.wanted() is None {
            Some(t.frames)
        } else {
            None
        },
        None => None,
    }
}

/// Whether every read in `events` was answered as the memory `mem` answers.
pub open spec fn agrees(mem: Map<u64, u64>, events: Seq<Event>) -> bool {
    forall|i: int|
        0 <= i < events.len() ==> (#[trigger] events[i] matches Event::ReadWord { addr, answer }
            ==> word_of(answer) == peek(mem, addr))
}

/// One more read behind a replay goes on from where the replay stands.
pub proof fn lemma_replay_push(s: WalkState, events: Seq<Event>, addr: u64, answer: Result<
    (usize, u64),
    u16,
>)
    requires
        replay(s, events) is Some,
        replay(s, events)->0.wanted() == Some(addr),
    ensures
        replay(s, events.push(Event::ReadWord { addr, answer })) == Some(
            replay(s, events)->0.fed(word_of(answer)),
        ),
{
    let more = events.push(Event::ReadWord { addr, answer });
    assert(more.drop_last() =~= events);
}

/// A walk whose reads were answered as `mem` answers ends as the walk over
/// `mem` ends.
pub proof fn lemma_replay_follows_memory(mem: Map<u64, u64>, s: WalkState, events: Seq<Event>)
    requires
        s.bounded(),
        replay(s, events) is Some,
        agrees(mem, events),
    ensures
        replay(s, events)->0.bounded(),
        run(mem, s) == run(mem, replay(s, events)->0),
    decreases events.len(),
{
    if events.len() > 0 {
        let before = events.drop_last();
        assert forall|i: int| 0 <= i < before.len() implies (#[trigger] before[i] matches Event::ReadWord {
            addr,
            answer,
        } ==> word_of(answer) == peek(mem, addr)) by {
            assert(before[i] == events[i]);
        }
        lemma_replay_follows_memory(mem, s, before);
        let t = replay(s, before)->0;
        assert(events[events.len() - 1] == events.last());
        match events.last() {
            Event::ReadWord { addr, answer } => {
                lemma_fed_progress(t, word_of(answer));
                lemma_run_step(mem, t);
            },
            _ => {},
        }
    }
}

/// Whether every event of `events` is a read of a word of memory.
pub open spec fn only_reads(events: Seq<Event>) -> bool {
    forall|i: int| 0 <= i < events.len() ==> #[trigger] events[i] is ReadWord
}

/// The trace of a walk holds nothing but reads of memory.
pub proof fn lemma_replay_only_reads(s: WalkState, events: Seq<Event>)
    requires
        replay(s, events) is Some,
    ensures
        only_reads(events),
    decreases events.len(),
{
    if events.len() > 0 {
        let before = events.drop_last();
        lemma_replay_only_reads(s, before);
        assert forall|i: int| 0 <= i < events.len() implies #[trigger] events[i] is ReadWord by {
            if i < before.len() {
                assert(events[i] == before[i]);
            } else {
                assert(events[i] == events.last());
            }
        }
    }
}

/// Over a memory that does not change, a walk through a channel gathers
/// what the walk over that memory gathers.
pub proof fn lemma_walk_of_stable_memory(
    mem: Map<u64, u64>,
    frame_ptr: u64,
    events: Seq<Event>,
    frames: Seq<u64>,
)
    requires
        walk_trace(frame_ptr, events) == Some(frames),
        agrees(mem, events),
    ensures
        frames == walk_mem(mem, frame_ptr),
{
    let s = WalkState::start(frame_ptr);
    lemma_replay_follows_memory(mem, s, events);
    lemma_run_ended(mem, replay(s, events)->0);
}

/// Reads the word at `addr` in the memory of the debuggee, with one request
/// to the channel. The read fails where the channel refuses it, and where
/// the channel hands over another number of bytes than a word has.
pub fn read_u64<C: DebugChannel>(link: &mut Traced<C>, addr: u64) -> (r: Result<u64, ReadFailure>)
    ensures
        final(link).trace().len() == old(link).trace().len() + 1,
        final(link).trace().drop_last() == old(link).trace(),
        final(link).trace().last() matches Event::ReadWord { addr: asked, answer } && asked == addr
            && r == word_verdict(answer),
{
    let answer = link.read_word(addr);
    proof {
        assert(link.trace().drop_last() =~= old(link).trace());
    }
    check_word(answer)
}

/// Gathers the return addresses of the thread that `snapshot` was taken
/// of, by following its frames through the memory of the debuggee. A read
/// that fails ends the walk; what was gathered before it is the result.
pub fn walk<C: DebugChannel>(link: &mut Traced<C>, snapshot: &ThreadRuntimeSnapshot) -> (bt:
    Backtrace)
    ensures
        final(link).continues(old(link).trace()),
        walk_trace(snapshot.frame_pointer, final(link).since(old(link).trace())) == Some(bt@),
        snapshot.frame_pointer == 0 ==> bt@ == Seq::<u64>::empty() && final(link).trace() == old(
            link,
        ).trace(),
{
    let ghost before = link.trace();
    let ghost start = WalkState::start(snapshot.frame_pointer);
    let ghost mut added: Seq<Event> = Seq::empty();
    let mut walker = Walker::new(snapshot.frame_pointer);
    let mut wanted = walker.wanted();
    proof {
        assert(before + added =~= before);
    }
    while wanted.is_some()
        invariant
            link.trace() == before + added,
            replay(start, added) == Some(walker@),
            wanted == walker@.wanted(),
            walker@.bounded(),
            start == WalkState::start(snapshot.frame_pointer),
            snapshot.frame_pointer == 0 ==> added.len() == 0,
        decreases walker@.remaining(),
    {
        let addr = wanted.unwrap();
        let ghost prior = link.trace();
        let r = read_u64(link, addr);
        let answer = match r {
            Ok(word) => Some(word),
            Err(_) => None,
        };
        proof {
            let event = link.trace().last();
            assert(link.trace() =~= prior.push(event));
            let raw = event->ReadWord_answer;
            assert(event == Event::ReadWord { addr, answer: raw });
            assert(answer == word_of(raw));
            lemma_replay_push(start, added, addr, raw);
            lemma_fed_progress(walker@, answer);
            assert(prior.push(event) =~= before + added.push(event));
            added = added.push(event);
        }
        walker = walker.supply(answer);
        wanted = walker.wanted();
    }
    proof {
        assert(link.trace().skip(before.len() as int) =~= added);
        if snapshot.frame_pointer == 0 {
            assert(added =~= Seq::<Event>::empty());
            assert(before + added =~= before);
        }
    }
    walker.finish()
}

} // verus!
