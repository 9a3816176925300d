//! What a trace of requests says: which thread ids the channel listed,
//! which threads were asked to run again, and which answer was the first
//! that no operation survives.

use vstd::prelude::*;
use crate::channel::Event;
use crate::errors::{
    attach_error, plain_verdict, release_verdict, resume_verdict, Error, Operation,
};
use crate::paging::{cursor_after, page_verdict, rising_from};

verus! {

/// The cursor that lies past every thread id.
pub open spec fn cursor_end() -> int {
    u64::MAX + 1
}

/// The error, if any, that the answer in `event` stands for. A failed read
/// of memory and a refused request for a thread's state are no errors: a
/// walk ends at the one, and the thread goes without a capture at the
/// other.
pub open spec fn failure_of(event: Event) -> Option<Error> {
    match event {
        Event::Attach { pid, answer } => match answer {
            Ok(_) => None,
            Err(code) => Some(attach_error(pid, code)),
        },
        Event::Pause { answer } => plain_verdict(Operation::Pause, answer),
        Event::ListThreads { start_tid, capacity, answer } => match page_verdict(
            start_tid,
            capacity,
            answer,
        ) {
            Ok(_) => None,
            Err(e) => Some(e),
        },
        Event::ThreadData { .. } => None,
        Event::ReadWord { .. } => None,
        Event::ResumeProcess { answer } => plain_verdict(Operation::ResumeProcess, answer),
        Event::ResumeThread { tid, answer } => resume_verdict(tid, answer),
        Event::Detach { answer } => plain_verdict(Operation::Detach, answer),
        Event::Release { answer } => release_verdict(answer),
    }
}

/// The thread ids that `event` brought: the page of a request for thread
/// ids that was answered by the rules, and none otherwise.
pub open spec fn page_of(event: Event) -> Seq<u64> {
    match event {
        Event::ListThreads { start_tid, capacity, answer } => match page_verdict(
            start_tid,
            capacity,
            answer,
        ) {
            Ok(ids) => ids,
            Err(_) => Seq::empty(),
        },
        _ => Seq::empty(),
    }
}

/// The thread that `event` asked to run again, if it asked for that.
pub open spec fn resumed_by(event: Event) -> Seq<u64> {
    match event {
        Event::ResumeThread { tid, .. } => seq![tid],
        _ => Seq::empty(),
    }
}

/// Where the cursor of an enumeration stands after `event`, if it stood at
/// `cursor` before and takes pages of `capacity` ids; or nothing, where
/// `event` is a request for thread ids that such an enumeration does not
/// make there. The cursor moves past a page that was answered by the rules,
/// and no other event moves it.
pub open spec fn cursor_step(cursor: int, capacity: usize, event: Event) -> Option<int> {
    match event {
        Event::ListThreads { start_tid, capacity: asked, answer } => if start_tid == cursor && asked
            == capacity {
            Some(cursor_after(cursor, page_of(event)))
        } else {
            None
        },
        _ => Some(cursor),
    }
}

/// The first error that an answer in `events` stands for, if any does.
pub open spec fn first_failure(events: Seq<Event>) -> Option<Error>
    decreases events.len(),
{
    if events.len() == 0 {
        None
    } else {
        match first_failure(events.drop_last()) {
            Some(e) => Some(e),
            None => failure_of(events.last()),
        }
    }
}

/// The thread ids that the channel listed in `events`, in the order in
/// which they came.
pub open spec fn listed(events: Seq<Event>) -> Seq<u64>
    decreases events.len(),
{
    if events.len() == 0 {
        Seq::empty()
    } else {
        listed(events.drop_last()) + page_of(events.last())
    }
}

/// The threads that were asked to run again in `events`, in the order of
/// the requests.
pub open spec fn resumed(events: Seq<Event>) -> Seq<u64>
    decreases events.len(),
{
    if events.len() == 0 {
        Seq::empty()
    } else {
        resumed(events.drop_last()) + resumed_by(events.last())
    }
}

/// Where the cursor of an enumeration stands after `events`, if it stood at
/// `cursor` before them; or nothing, where a request for thread ids among
/// them is not one that the enumeration makes.
pub open spec fn scan(cursor: int, capacity: usize, events: Seq<Event>) -> Option<int>
    decreases events.len(),
{
    if events.len() == 0 {
        Some(cursor)
    } else {
        match scan(cursor, capacity, events.drop_last()) {
            Some(c) => cursor_step(c, capacity, events.last()),
            None => None,
        }
    }
}

/// Whether no event of `events` lists threads, asks a thread to run again,
/// or stands for an error.
pub open spec fn quiet(events: Seq<Event>) -> bool {
    forall|i: int|
        0 <= i < events.len() ==> {
            &&& failure_of(#[trigger] events[i]) is None
            &&& page_of(events[i]) == Seq::<u64>::empty()
            &&& resumed_by(events[i]) == Seq::<u64>::empty()
            &&& !(events[i] is ListThreads)
        }
}

/// Whether nothing was asked in `events` behind the first answer that
/// stands for an error: none but the last answer stands for one.
pub open spec fn stops_at_failure(events: Seq<Event>) -> bool {
    events.len() > 0 ==> first_failure(events.drop_last()) is None
}

/// Whether `event` belongs to a scan of the threads: a request for thread
/// ids, for the state of a thread, or for a word of memory.
pub open spec fn is_scan_event(event: Event) -> bool {
    event is ListThreads || event is ThreadData || event is ReadWord
}

/// Whether every event of `events` belongs to a scan of the threads.
pub open spec fn only_scan_events(events: Seq<Event>) -> bool {
    forall|i: int| 0 <= i < events.len() ==> is_scan_event(#[trigger] events[i])
}

/// Whether `events` are those of making the threads run again: first the
/// request that the process no longer be held, and behind it nothing but
/// requests that a thread run again and requests for thread ids.
pub open spec fn only_resume_events(events: Seq<Event>) -> bool {
    forall|i: int|
        0 <= i < events.len() ==> if i == 0 {
            #[trigger] events[i] is ResumeProcess
        } else {
            events[i] is ResumeThread || events[i] is ListThreads
        }
}

/// A thread that is gone when it is asked to run again ends nothing: the
/// answer that there is no such thread stands for no error, nor does the
/// answer that the thread runs already or is not ready.
pub proof fn lemma_gone_thread_is_passed_over(tid: u64)
    ensures
        failure_of(Event::ResumeThread { tid, answer: Err(crate::errors::E_NOT_FOUND) }) is None,
        failure_of(Event::ResumeThread { tid, answer: Err(crate::errors::E_ALREADY_IN_USE) })
            is None,
        failure_of(Event::ResumeThread { tid, answer: Err(crate::errors::E_NOT_READY) }) is None,
        failure_of(Event::ResumeThread { tid, answer: Ok(()) }) is None,
{
}

/// A trace without an error has none in what comes before its last event.
pub proof fn lemma_first_failure_of_part(events: Seq<Event>)
    requires
        first_failure(events) is None,
    ensures
        stops_at_failure(events),
{
}

/// In a trace without an error no answer stands for one.
pub proof fn lemma_no_failure_anywhere(events: Seq<Event>)
    requires
        first_failure(events) is None,
    ensures
        forall|i: int| 0 <= i < events.len() ==> failure_of(#[trigger] events[i]) is None,
    decreases events.len(),
{
    if events.len() > 0 {
        let shorter = events.drop_last();
        lemma_no_failure_anywhere(shorter);
        assert forall|i: int| 0 <= i < events.len() implies failure_of(#[trigger] events[i])
            is None by {
            if i < shorter.len() {
                assert(events[i] == shorter[i]);
            } else {
                assert(events[i] == events.last());
            }
        }
    }
}

/// What one more event adds to what a trace says.
pub proof fn lemma_push(events: Seq<Event>, event: Event)
    ensures
        first_failure(events.push(event)) == match first_failure(events) {
            Some(e) => Some(e),
            None => failure_of(event),
        },
        listed(events.push(event)) == listed(events) + page_of(event),
        resumed(events.push(event)) == resumed(events) + resumed_by(event),
        forall|cursor: int, capacity: usize| #[trigger]
            scan(cursor, capacity, events.push(event)) == match scan(cursor, capacity, events) {
                Some(c) => cursor_step(c, capacity, event),
                None => None,
            },
{
    assert(events.push(event).drop_last() =~= events);
}

/// What a trace says that is made of two: of what the first part says and
/// what the second says.
pub proof fn lemma_concat(first: Seq<Event>, second: Seq<Event>)
    ensures
        first_failure(first + second) == match first_failure(first) {
            Some(e) => Some(e),
            None => first_failure(second),
        },
        listed(first + second) == listed(first) + listed(second),
        resumed(first + second) == resumed(first) + resumed(second),
        forall|cursor: int, capacity: usize| #[trigger]
            scan(cursor, capacity, first + second) == match scan(cursor, capacity, first) {
                Some(c) => scan(c, capacity, second),
                None => None,
            },
    decreases second.len(),
{
    if second.len() == 0 {
        assert(first + second =~= first);
        assert(listed(first) + listed(second) =~= listed(first));
        assert(resumed(first) + resumed(second) =~= resumed(first));
    } else {
        let shorter = second.drop_last();
        lemma_concat(first, shorter);
        assert((first + second).drop_last() =~= first + shorter);
        assert((first + second).last() == second.last());
        assert(listed(first) + (listed(shorter) + page_of(second.last())) =~= (listed(first)
            + listed(shorter)) + page_of(second.last()));
        assert(resumed(first) + (resumed(shorter) + resumed_by(second.last())) =~= (resumed(first)
            + resumed(shorter)) + resumed_by(second.last()));
        assert forall|cursor: int, capacity: usize| #[trigger]
            scan(cursor, capacity, first + second) == match scan(cursor, capacity, first) {
                Some(c) => scan(c, capacity, second),
                None => None,
            } by {
            assert(scan(cursor, capacity, first + shorter) == match scan(cursor, capacity, first) {
                Some(c) => scan(c, capacity, shorter),
                None => None,
            });
        }
    }
}

/// A quiet trace says nothing: it lists no thread, asks none to run again,
/// holds no error, and leaves the cursor of an enumeration where it was.
pub proof fn lemma_quiet(events: Seq<Event>)
    requires
        quiet(events),
    ensures
        first_failure(events) is None,
        listed(events) == Seq::<u64>::empty(),
        resumed(events) == Seq::<u64>::empty(),
        forall|cursor: int, capacity: usize| #[trigger]
            scan(cursor, capacity, events) == Some(cursor),
    decreases events.len(),
{
    if events.len() > 0 {
        let shorter = events.drop_last();
        assert forall|i: int| 0 <= i < shorter.len() implies {
            &&& failure_of(#[trigger] shorter[i]) is None
            &&& page_of(shorter[i]) == Seq::<u64>::empty()
            &&& resumed_by(shorter[i]) == Seq::<u64>::empty()
            &&& !(shorter[i] is ListThreads)
        } by {
            assert(shorter[i] == events[i]);
        }
        lemma_quiet(shorter);
        assert(events[events.len() - 1] == events.last());
        assert(listed(shorter) + page_of(events.last()) =~= Seq::<u64>::empty());
        assert(resumed(shorter) + resumed_by(events.last()) =~= Seq::<u64>::empty());
        assert forall|cursor: int, capacity: usize| #[trigger]
            scan(cursor, capacity, events) == Some(cursor) by {
            assert(scan(cursor, capacity, shorter) == Some(cursor));
        }
    }
}

/// A trace without a request for thread ids lists no thread and leaves the
/// cursor of an enumeration where it was.
pub proof fn lemma_no_lists(events: Seq<Event>)
    requires
        forall|i: int| 0 <= i < events.len() ==> !(#[trigger] events[i] is ListThreads),
    ensures
        listed(events) == Seq::<u64>::empty(),
        forall|cursor: int, capacity: usize| #[trigger]
            scan(cursor, capacity, events) == Some(cursor),
    decreases events.len(),
{
    if events.len() > 0 {
        let shorter = events.drop_last();
        assert forall|i: int| 0 <= i < shorter.len() implies !(#[trigger] shorter[i]
            is ListThreads) by {
            assert(shorter[i] == events[i]);
        }
        lemma_no_lists(shorter);
        assert(events[events.len() - 1] == events.last());
        assert(listed(shorter) + page_of(events.last()) =~= Seq::<u64>::empty());
        assert forall|cursor: int, capacity: usize| #[trigger]
            scan(cursor, capacity, events) == Some(cursor) by {
            assert(scan(cursor, capacity, shorter) == Some(cursor));
        }
    }
}

/// Whether no event of `events` asks a thread to run again.
pub open spec fn only_resumes_none(events: Seq<Event>) -> bool {
    forall|i: int| 0 <= i < events.len() ==> !(#[trigger] events[i] is ResumeThread)
}

/// A trace without a request to resume a thread has asked none to run
/// again.
pub proof fn lemma_no_resumes(events: Seq<Event>)
    requires
        only_resumes_none(events),
    ensures
        resumed(events) == Seq::<u64>::empty(),
    decreases events.len(),
{
    if events.len() > 0 {
        let shorter = events.drop_last();
        assert forall|i: int| 0 <= i < shorter.len() implies !(#[trigger] shorter[i]
            is ResumeThread) by {
            assert(shorter[i] == events[i]);
        }
        lemma_no_resumes(shorter);
        assert(events[events.len() - 1] == events.last());
        assert(resumed(shorter) + resumed_by(events.last()) =~= Seq::<u64>::empty());
    }
}

/// Whether every event of `events` asks a thread to run again.
pub open spec fn only_resumes(events: Seq<Event>) -> bool {
    forall|i: int| 0 <= i < events.len() ==> #[trigger] events[i] is ResumeThread
}

/// Two quiet traces make a quiet trace.
pub proof fn lemma_quiet_concat(first: Seq<Event>, second: Seq<Event>)
    requires
        quiet(first),
        quiet(second),
    ensures
        quiet(first + second),
{
    let both = first + second;
    assert forall|i: int| 0 <= i < both.len() implies {
        &&& failure_of(#[trigger] both[i]) is None
        &&& page_of(both[i]) == Seq::<u64>::empty()
        &&& resumed_by(both[i]) == Seq::<u64>::empty()
        &&& !(both[i] is ListThreads)
    } by {
        if i < first.len() {
            assert(both[i] == first[i]);
        } else {
            assert(both[i] == second[i - first.len()]);
        }
    }
}

/// What holds of a whole trace, from what holds of its two parts: where an
/// enumeration from the id zero stood at `mid` after the first part and
/// stands at `end` after the second, and the threads listed in each part
/// are those resumed in it and those left pending, less those that were
/// pending before it, the same holds of the whole.
pub proof fn lemma_whole(
    first: Seq<Event>,
    second: Seq<Event>,
    capacity: usize,
    mid: int,
    end: int,
    pending_mid: Seq<u64>,
    pending_end: Seq<u64>,
)
    requires
        scan(0, capacity, first) == Some(mid),
        scan(mid, capacity, second) == Some(end),
        resumed(first) + pending_mid == listed(first),
        resumed(second) + pending_end == pending_mid + listed(second),
    ensures
        scan(0, capacity, first + second) == Some(end),
        resumed(first + second) + pending_end == listed(first + second),
{
    lemma_concat(first, second);
    assert(scan(0, capacity, first + second) == Some(end));
    assert((resumed(first) + resumed(second)) + pending_end =~= resumed(first) + (resumed(second)
        + pending_end));
    assert(resumed(first) + (pending_mid + listed(second)) =~= (resumed(first) + pending_mid)
        + listed(second));
}

/// The ids that an enumeration listed rise strictly: no id was listed
/// twice. None lies below the id that the enumeration began at, and all lie
/// below its cursor, which never moves back.
pub proof fn lemma_listed_rises(cursor: int, capacity: usize, events: Seq<Event>)
    requires
        scan(cursor, capacity, events) is Some,
    ensures
        cursor <= scan(cursor, capacity, events)->0,
        rising_from(listed(events), cursor),
        forall|i: int|
            0 <= i < listed(events).len() ==> #[trigger] listed(events)[i] < scan(
                cursor,
                capacity,
                events,
            )->0,
    decreases events.len(),
{
    if events.len() > 0 {
        let shorter = events.drop_last();
        lemma_listed_rises(cursor, capacity, shorter);
        let mid = scan(cursor, capacity, shorter)->0;
        let end = scan(cursor, capacity, events)->0;
        let page = page_of(events.last());
        let before = listed(shorter);
        let all = listed(events);
        if page.len() > 0 {
            assert(rising_from(page, mid));
            assert(end == page.last() + 1);
            assert forall|i: int| 0 <= i < all.len() implies cursor <= #[trigger] all[i] && all[i]
                < end by {
                if i < before.len() {
                    assert(all[i] == before[i]);
                } else {
                    assert(all[i] == page[i - before.len()]);
                    if i - before.len() < page.len() - 1 {
                        assert(page[i - before.len()] < page[page.len() - 1]);
                    }
                }
            }
            assert forall|i: int, j: int| 0 <= i < j < all.len() implies #[trigger] all[i]
                < #[trigger] all[j] by {
                if j < before.len() {
                    assert(all[i] == before[i] && all[j] == before[j]);
                } else if i < before.len() {
                    assert(all[i] == before[i]);
                    assert(all[j] == page[j - before.len()]);
                } else {
                    assert(all[i] == page[i - before.len()]);
                    assert(all[j] == page[j - before.len()]);
                }
            }
        } else {
            assert(all =~= before);
        }
    }
}

} // verus!
