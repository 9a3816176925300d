//! What follows for the whole command from what its three steps do: the
//! scan, the resuming and the detach, one behind the other.

use vstd::prelude::*;
use crate::capture::{tids_of, ThreadReport};
use crate::channel::Event;
use crate::coverage::{answers_by, faithful, lemma_scan_covers_table};
use crate::errors::SessionState;
use crate::paging::rising_from;
use crate::session::{did_all, ran_all};
use crate::trace::{
    cursor_end, first_failure, is_scan_event, lemma_concat, lemma_no_failure_anywhere,
    lemma_no_lists, listed, page_of, scan,
};

verus! {

/// Whether `events` come in the order of the command: up to the place
/// `resume_at` nothing but requests of the scan; at `resume_at` the request
/// that the process no longer be held; behind it, up to the place
/// `detach_at`, nothing but requests that a thread run again and requests
/// for thread ids; and from `detach_at` on at most the detach and, behind
/// it, the release of the handle.
pub open spec fn in_order(events: Seq<Event>, resume_at: int, detach_at: int) -> bool {
    &&& 0 <= resume_at < detach_at <= events.len() <= detach_at + 2
    &&& events[resume_at] is ResumeProcess
    &&& forall|i: int| 0 <= i < resume_at ==> is_scan_event(#[trigger] events[i])
    &&& forall|i: int|
        resume_at < i < detach_at ==> (#[trigger] events[i] is ResumeThread || events[i]
            is ListThreads)
    &&& forall|i: int|
        detach_at <= i < events.len() ==> if i == detach_at {
            #[trigger] events[i] is Detach
        } else {
            events[i] is Release
        }
}

/// The requests of the command come in order: no thread is asked to run
/// again before the process is no longer held, nothing is looked at behind
/// that, and the detach is asked for at most once, behind everything but
/// the release of the handle.
pub proof fn lemma_command_in_order(
    events: Seq<Event>,
    reports: Seq<ThreadReport>,
    state: SessionState,
    from: int,
    capacity: usize,
)
    requires
        did_all(events, reports, state, from, capacity),
    ensures
        exists|resume_at: int, detach_at: int| in_order(events, resume_at, detach_at),
{
    let (a, b, c) = choose|a: Seq<Event>, b: Seq<Event>, c: Seq<Event>|
        ran_all(events, reports, state, from, capacity, a, b, c);
    let k = a.len() as int;
    let m = (a.len() + b.len()) as int;
    assert(events[k] == b[0]);
    assert forall|i: int| 0 <= i < k implies is_scan_event(#[trigger] events[i]) by {
        assert(events[i] == a[i]);
    }
    assert forall|i: int| k < i < m implies (#[trigger] events[i] is ResumeThread || events[i]
        is ListThreads) by {
        assert(events[i] == b[i - k]);
    }
    assert forall|i: int| m <= i < events.len() implies if i == m {
        #[trigger] events[i] is Detach
    } else {
        events[i] is Release
    } by {
        assert(events[i] == c[i - m]);
    }
    assert(in_order(events, k, m));
}

/// A command that met no error ends with the detach: its last request is
/// the release of the handle, which the channel rejected, and the one
/// before it the detach, which was granted; the session is detached; and
/// unless there is no thread id left to ask from, the request before the
/// detach was one for thread ids that brought none.
pub proof fn lemma_command_ends_with_the_detach(
    events: Seq<Event>,
    reports: Seq<ThreadReport>,
    state: SessionState,
    from: int,
    capacity: usize,
)
    requires
        did_all(events, reports, state, from, capacity),
        first_failure(events) is None,
    ensures
        state == SessionState::Detached,
        events.len() >= 3,
        exists|resume_at: int, detach_at: int|
            in_order(events, resume_at, detach_at) && detach_at == events.len() - 2,
        events[events.len() - 2] is Detach,
        events.last() is Release,
        scan(from, capacity, events) is Some,
        scan(from, capacity, events)->0 != cursor_end() ==> events[events.len() - 3] is ListThreads
            && page_of(events[events.len() - 3]).len() == 0,
{
    let (a, b, c) = choose|a: Seq<Event>, b: Seq<Event>, c: Seq<Event>|
        ran_all(events, reports, state, from, capacity, a, b, c);
    lemma_concat(a + b, c);
    lemma_concat(a, b);
    lemma_no_failure_anywhere(c);
    assert(c.len() == 2);
    let k = a.len() as int;
    let m = (a.len() + b.len()) as int;
    assert(events[m] == c[0]);
    assert(events[m + 1] == c[1]);
    assert(events[m - 1] == b.last());
    assert forall|i: int| 0 <= i < c.len() implies !(#[trigger] c[i] is ListThreads) by {
        if i == 0 {
            assert(c[0] is Detach);
        } else {
            assert(c[1] is Release);
        }
    }
    lemma_no_lists(c);
    assert(events[k] == b[0]);
    assert forall|i: int| 0 <= i < k implies is_scan_event(#[trigger] events[i]) by {
        assert(events[i] == a[i]);
    }
    assert forall|i: int| k < i < m implies (#[trigger] events[i] is ResumeThread || events[i]
        is ListThreads) by {
        assert(events[i] == b[i - k]);
    }
    assert forall|i: int| m <= i < events.len() implies if i == m {
        #[trigger] events[i] is Detach
    } else {
        events[i] is Release
    } by {
        assert(events[i] == c[i - m]);
    }
    assert(in_order(events, k, m) && m == events.len() - 2);
}

/// Where the threads of the process are those of `table` and the channel
/// lists by the table, in pages of at least one id, a command that met no
/// error has reported every thread of the table, each once and in the order
/// of the ids, however many pages that took; the threads that it listed,
/// which are the threads that it asked to run again, are those of the
/// table, each once; and the session is detached.
pub proof fn lemma_command_finds_table(
    table: Seq<u64>,
    events: Seq<Event>,
    reports: Seq<ThreadReport>,
    state: SessionState,
    capacity: usize,
)
    requires
        rising_from(table, 0),
        capacity >= 1,
        did_all(events, reports, state, 0, capacity),
        faithful(table, events),
        first_failure(events) is None,
    ensures
        tids_of(reports) == table,
        listed(events) == table,
        listed(events).no_duplicates(),
        state == SessionState::Detached,
{
    let (a, b, c) = choose|a: Seq<Event>, b: Seq<Event>, c: Seq<Event>|
        ran_all(events, reports, state, 0, capacity, a, b, c);
    lemma_concat(a + b, c);
    lemma_concat(a, b);
    lemma_no_failure_anywhere(c);
    assert(c.len() == 2);
    assert forall|i: int| 0 <= i < a.len() implies answers_by(table, #[trigger] a[i]) by {
        assert(a[i] == events[i]);
    }
    assert forall|i: int| 0 <= i < (a + b).len() implies answers_by(
        table,
        #[trigger] (a + b)[i],
    ) by {
        assert((a + b)[i] == events[i]);
    }
    lemma_scan_covers_table(table, 0, capacity, a);
    assert((a + b).last() == b.last());
    lemma_scan_covers_table(table, 0, capacity, a + b);
    assert forall|i: int| 0 <= i < c.len() implies !(#[trigger] c[i] is ListThreads) by {
        if i == 0 {
            assert(c[0] is Detach);
        } else {
            assert(c[1] is Release);
        }
    }
    lemma_no_lists(c);
    assert(listed(a + b) + listed(c) =~= listed(a + b));
}

} // verus!
