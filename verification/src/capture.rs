//! Looking at one thread: asking for its state and walking its frames.

use vstd::prelude::*;
use crate::backtrace::Backtrace;
use crate::channel::{DebugChannel, Event, Traced};
use crate::snapshot::ThreadRuntimeSnapshot;
use crate::trace::{lemma_quiet_concat, quiet};
use crate::unwind::{lemma_replay_only_reads, replay, walk, walk_trace, word_of};
use crate::walker::WalkState;

verus! {

/// What was captured of one thread: its state, and the return addresses
/// gathered from its frames.
#[derive(Debug)]
pub struct ThreadCapture {
    pub snapshot: ThreadRuntimeSnapshot,
    pub backtrace: Backtrace,
}

/// What a scan found of one thread: its id and what was captured of it, or
/// the code with which the channel refused to hand over its state.
#[derive(Debug)]
pub struct ThreadReport {
    pub tid: u64,
    pub capture: Result<ThreadCapture, u16>,
}

/// The ids of the threads that `reports` are of, in their order.
pub open spec fn tids_of(reports: Seq<ThreadReport>) -> Seq<u64> {
    Seq::new(reports.len(), |i: int| reports[i].tid)
}

/// Whether `report` is what the requests in `events` found of the thread
/// `tid`: the first asked for the state of the thread; where that was
/// refused, the report holds the code and nothing more was asked; where it
/// was handed over, the rest are the reads of the walk from the frame
/// pointer of the thread, and the report holds what that walk gathered.
pub open spec fn reports_thread(report: ThreadReport, tid: u64, events: Seq<Event>) -> bool {
    &&& report.tid == tid
    &&& events.len() >= 1
    &&& events[0] matches Event::ThreadData { tid: asked, answer }
    &&& asked == tid
    &&& match answer {
        Err(code) => report.capture == Err::<ThreadCapture, u16>(code) && events.len() == 1,
        Ok(snapshot) => {
            &&& report.capture matches Ok(capture)
            &&& capture.snapshot == snapshot
            &&& walk_trace(snapshot.frame_pointer, events.skip(1)) == Some(capture.backtrace@)
        },
    }
}

/// Whether every event of `events` asks for the state of a thread or reads
/// a word of memory.
pub open spec fn only_captures(events: Seq<Event>) -> bool {
    forall|i: int|
        0 <= i < events.len() ==> (#[trigger] events[i] is ThreadData || events[i] is ReadWord)
}

/// Two traces of captures make a trace of captures.
pub proof fn lemma_captures_concat(first: Seq<Event>, second: Seq<Event>)
    requires
        only_captures(first),
        only_captures(second),
    ensures
        only_captures(first + second),
{
    let both = first + second;
    assert forall|i: int| 0 <= i < both.len() implies (#[trigger] both[i] is ThreadData || both[i]
        is ReadWord) by {
        if i < first.len() {
            assert(both[i] == first[i]);
        } else {
            assert(both[i] == second[i - first.len()]);
        }
    }
}

/// The requests that find what there is to report of one thread ask for the
/// state of a thread or read memory; they list no thread, resume none, and
/// hold no error.
pub proof fn lemma_report_is_quiet(report: ThreadReport, tid: u64, events: Seq<Event>)
    requires
        reports_thread(report, tid, events),
    ensures
        quiet(events),
        only_captures(events),
{
    let reads = events.skip(1);
    match events[0] {
        Event::ThreadData { tid: asked, answer } => {
            match answer {
                Ok(snapshot) => {
                    lemma_replay_only_reads(WalkState::start(snapshot.frame_pointer), reads);
                },
                Err(_) => {},
            }
        },
        _ => {},
    }
    assert forall|i: int| 0 <= i < events.len() implies (events[i] is ThreadData
        || #[trigger] events[i] is ReadWord) by {
        if i > 0 {
            assert(events[i] == reads[i - 1]);
        }
    }
}

/// Asks for the state of the thread `tid` and, where it is handed over,
/// walks the frames of the thread.
pub fn capture_thread<C: DebugChannel>(link: &mut Traced<C>, tid: u64) -> (report: ThreadReport)
    ensures
        final(link).continues(old(link).trace()),
        reports_thread(report, tid, final(link).since(old(link).trace())),
{
    let ghost before = link.trace();
    let answer = link.thread_data(tid);
    let ghost first = link.trace().last();
    let ghost mid = link.trace();
    match answer {
        Err(code) => {
            proof {
                assert(link.trace().skip(before.len() as int) =~= seq![first]);
                assert(link.trace() =~= before + seq![first]);
            }
            ThreadReport { tid, capture: Err(code) }
        },
        Ok(snapshot) => {
            let backtrace = walk(link, &snapshot);
            proof {
                let reads = link.since(mid);
                let added = link.since(before);
                assert(link.trace() =~= before + added);
                assert(added.skip(1) =~= reads);
                assert(added[0] == first);
            }
            ThreadReport { tid, capture: Ok(ThreadCapture { snapshot, backtrace }) }
        },
    }
}

/// What the requests of a scan found of one thread.
pub struct Found {
    /// The id of the thread.
    pub tid: u64,
    /// The answer to the request for the state of the thread.
    pub state: Result<ThreadRuntimeSnapshot, u16>,
    /// Where the walk of the frames of the thread stands.
    pub walk: WalkState,
    /// Whether the state was handed over before anything was read, and
    /// each read was the one that the walk wanted.
    pub sound: bool,
}

/// What is found of a thread at the answer to the request for its state:
/// the walk of its frames is at its start.
pub open spec fn found_at(tid: u64, state: Result<ThreadRuntimeSnapshot, u16>) -> Found {
    Found {
        tid,
        state,
        walk: match state {
            Ok(snapshot) => WalkState::start(snapshot.frame_pointer),
            Err(_) => WalkState::start(0),
        },
        sound: true,
    }
}

/// What is found of a thread after one more read of memory.
pub open spec fn found_after_read(f: Found, addr: u64, answer: Result<(usize, u64), u16>) -> Found {
    Found {
        walk: f.walk.fed(word_of(answer)),
        sound: f.sound && f.state is Ok && f.walk.wanted() == Some(addr),
        ..f
    }
}

/// What was found of the threads after `event`, where `found` was found
/// before it. A request for the state of a thread begins what is found of
/// that thread; a read of memory belongs to the walk of the thread that
/// was asked for last; no other event finds anything.
pub open spec fn found_step(found: Seq<Found>, event: Event) -> Seq<Found> {
    match event {
        Event::ThreadData { tid, answer } => found.push(found_at(tid, answer)),
        Event::ReadWord { addr, answer } => if found.len() == 0 {
            found.push(Found { sound: false, ..found_at(0, Err(0)) })
        } else {
            found.drop_last().push(found_after_read(found.last(), addr, answer))
        },
        _ => found,
    }
}

/// What was found of the threads after `events`, where `found` was found
/// before them.
pub open spec fn found_from(found: Seq<Found>, events: Seq<Event>) -> Seq<Found>
    decreases events.len(),
{
    if events.len() == 0 {
        found
    } else {
        found_step(found_from(found, events.drop_last()), events.last())
    }
}

/// What the requests in `events` found of the threads, one after the
/// other.
pub open spec fn found_in(events: Seq<Event>) -> Seq<Found> {
    found_from(Seq::empty(), events)
}

/// Whether `report` shows what was found of a thread: the requests for it
/// were those of a capture, its walk came to its end, and the report holds
/// the state of the thread and what the walk gathered, or the code with
/// which the state was refused.
pub open spec fn shows(report: ThreadReport, f: Found) -> bool {
    &&& f.sound
    &&& f.walk.wanted() is None
    &&& report.tid == f.tid
    &&& match f.state {
        Err(code) => report.capture == Err::<ThreadCapture, u16>(code),
        Ok(snapshot) => {
            &&& report.capture matches Ok(capture)
            &&& capture.snapshot == snapshot
            &&& capture.backtrace@ == f.walk.frames
        },
    }
}

/// Whether `reports` show, one by one, what was found of the threads.
pub open spec fn show_all(reports: Seq<ThreadReport>, found: Seq<Found>) -> bool {
    &&& reports.len() == found.len()
    &&& forall|i: int| 0 <= i < reports.len() ==> shows(#[trigger] reports[i], found[i])
}

/// Whether no event of `events` asks for the state of a thread or reads
/// memory.
pub open spec fn finds_nothing(events: Seq<Event>) -> bool {
    forall|i: int|
        0 <= i < events.len() ==> !(#[trigger] events[i] is ThreadData) && !(events[i] is ReadWord)
}

/// What was found after two traces is what the second finds behind the
/// first.
pub proof fn lemma_found_concat(found: Seq<Found>, first: Seq<Event>, second: Seq<Event>)
    ensures
        found_from(found, first + second) == found_from(found_from(found, first), second),
    decreases second.len(),
{
    if second.len() == 0 {
        assert(first + second =~= first);
    } else {
        lemma_found_concat(found, first, second.drop_last());
        assert((first + second).drop_last() =~= first + second.drop_last());
        assert((first + second).last() == second.last());
    }
}

/// Events that ask for no state and read no memory find nothing.
pub proof fn lemma_finds_nothing(found: Seq<Found>, events: Seq<Event>)
    requires
        finds_nothing(events),
    ensures
        found_from(found, events) == found,
    decreases events.len(),
{
    if events.len() > 0 {
        let shorter = events.drop_last();
        assert forall|i: int| 0 <= i < shorter.len() implies !(#[trigger] shorter[i] is ThreadData)
            && !(shorter[i] is ReadWord) by {
            assert(shorter[i] == events[i]);
        }
        lemma_finds_nothing(found, shorter);
        assert(events[events.len() - 1] == events.last());
    }
}

/// The reads of a walk, behind what was found of its thread, leave the
/// walk where their replay leaves it.
pub proof fn lemma_found_walk(found: Seq<Found>, f: Found, reads: Seq<Event>)
    requires
        f.sound,
        f.state is Ok,
        replay(f.walk, reads) is Some,
    ensures
        found_from(found.push(f), reads) == found.push(
            Found { walk: replay(f.walk, reads)->0, ..f },
        ),
    decreases reads.len(),
{
    if reads.len() > 0 {
        let shorter = reads.drop_last();
        lemma_found_walk(found, f, shorter);
        let g = Found { walk: replay(f.walk, shorter)->0, ..f };
        assert(found.push(g).drop_last() =~= found);
        assert(found.push(g).last() == g);
    }
}

/// The requests of the capture of one thread find that thread, as the
/// report of the capture shows it.
pub proof fn lemma_found_capture(
    found: Seq<Found>,
    report: ThreadReport,
    tid: u64,
    events: Seq<Event>,
)
    requires
        reports_thread(report, tid, events),
    ensures
        found_from(found, events).len() == found.len() + 1,
        found_from(found, events).drop_last() == found,
        shows(report, found_from(found, events).last()),
{
    let first = seq![events[0]];
    let reads = events.skip(1);
    assert(events =~= first + reads);
    lemma_found_concat(found, first, reads);
    assert(first.drop_last() =~= Seq::<Event>::empty());
    assert(first.last() == events[0]);
    assert(found_from(found, Seq::<Event>::empty()) == found);
    assert(found_from(found, first) == found_step(found, events[0]));
    match events[0] {
        Event::ThreadData { tid: asked, answer } => {
            let f = found_at(tid, answer);
            match answer {
                Ok(snapshot) => {
                    lemma_found_walk(found, f, reads);
                    let g = Found { walk: replay(f.walk, reads)->0, ..f };
                    assert(found.push(g).drop_last() =~= found);
                },
                Err(_) => {
                    assert(reads =~= Seq::<Event>::empty());
                    assert(found.push(f).drop_last() =~= found);
                },
            }
        },
        _ => {},
    }
}

/// Captures each thread of `page`, in order, and puts the reports behind
/// `reports`.
pub(crate) fn capture_page<C: DebugChannel>(
    link: &mut Traced<C>,
    page: &Vec<u64>,
    reports: &mut Vec<ThreadReport>,
    Ghost(found): Ghost<Seq<Found>>,
)
    requires
        show_all(old(reports)@, found),
    ensures
        final(link).continues(old(link).trace()),
        quiet(final(link).since(old(link).trace())),
        only_captures(final(link).since(old(link).trace())),
        tids_of(final(reports)@) == tids_of(old(reports)@) + page@,
        show_all(final(reports)@, found_from(found, final(link).since(old(link).trace()))),
{
    let ghost before = link.trace();
    let ghost mut added: Seq<Event> = Seq::empty();
    let mut i: usize = 0;
    proof {
        assert(before + added =~= before);
        assert(tids_of(reports@) + page@.take(0) =~= tids_of(reports@));
    }
    while i < page.len()
        invariant
            i <= page@.len(),
            before == old(link).trace(),
            link.trace() == before + added,
            quiet(added),
            only_captures(added),
            tids_of(reports@) == tids_of(old(reports)@) + page@.take(i as int),
            show_all(reports@, found_from(found, added)),
        decreases page@.len() - i,
    {
        let ghost prior = link.trace();
        let ghost had = reports@;
        let ghost known = found_from(found, added);
        let report = capture_thread(link, page[i]);
        proof {
            let events = link.since(prior);
            lemma_report_is_quiet(report, page@[i as int], events);
            lemma_quiet_concat(added, events);
            lemma_captures_concat(added, events);
            lemma_found_concat(found, added, events);
            lemma_found_capture(known, report, page@[i as int], events);
            assert(link.trace() =~= before + (added + events));
            added = added + events;
        }
        reports.push(report);
        proof {
            let now = found_from(found, added);
            assert(tids_of(reports@) =~= tids_of(had).push(page@[i as int]));
            assert((tids_of(old(reports)@) + page@.take(i as int)).push(page@[i as int]) =~= tids_of(
                old(reports)@,
            ) + page@.take(i + 1));
            assert forall|k: int| 0 <= k < reports@.len() implies shows(
                #[trigger] reports@[k],
                now[k],
            ) by {
                if k < had.len() {
                    assert(reports@[k] == had[k]);
                    assert(now[k] == now.drop_last()[k]);
                } else {
                    assert(now[k] == now.last());
                }
            }
        }
        i = i + 1;
    }
    proof {
        assert(page@.take(i as int) =~= page@);
        assert(link.trace().skip(before.len() as int) =~= added);
    }
}

} // verus!
