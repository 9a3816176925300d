//! That an enumeration in pages finds every thread.
//!
//! The threads of a process are given by the table of their ids, in rising
//! order. A channel answers by the table where it hands over, for a request
//! from an id on, the ids of the table from there on, as many as were asked
//! for or as there are.

use vstd::prelude::*;
use crate::channel::Event;
use crate::enumerator::came_to_end;
use crate::paging::{cursor_after, rising_from};
use crate::trace::{cursor_end, failure_of, listed, page_of, scan};

verus! {

/// The number of ids in `table` that lie below `cursor`.
pub open spec fn below(table: Seq<u64>, cursor: int) -> nat
    decreases table.len(),
{
    if table.len() == 0 {
        0
    } else {
        below(table.drop_last(), cursor) + if table.last() < cursor {
            1nat
        } else {
            0nat
        }
    }
}

/// The ids of `table` from `cursor` on.
pub open spec fn ids_from(table: Seq<u64>, cursor: int) -> Seq<u64> {
    table.skip(below(table, cursor) as int)
}

/// The page that answers a request for at most `capacity` ids from
/// `start_tid` on by the table.
pub open spec fn page_from(table: Seq<u64>, start_tid: int, capacity: usize) -> Seq<u64> {
    let first = below(table, start_tid) as int;
    let last = if first + capacity <= table.len() {
        first + capacity
    } else {
        table.len() as int
    };
    table.subrange(first, last)
}

/// Whether `event`, if it is a request for thread ids, was answered by the
/// table.
pub open spec fn answers_by(table: Seq<u64>, event: Event) -> bool {
    event matches Event::ListThreads { start_tid, capacity, .. } ==> failure_of(event) is None
        && page_of(event) == page_from(table, start_tid as int, capacity)
}

/// Whether every request for thread ids in `events` was answered by the
/// table.
pub open spec fn faithful(table: Seq<u64>, events: Seq<Event>) -> bool {
    forall|i: int| 0 <= i < events.len() ==> answers_by(table, #[trigger] events[i])
}

/// In a table that rises, the ids below a cursor are the first so many, and
/// the others lie at the cursor or above.
pub proof fn lemma_below_splits(table: Seq<u64>, cursor: int)
    requires
        rising_from(table, 0),
    ensures
        below(table, cursor) <= table.len(),
        forall|i: int| 0 <= i < below(table, cursor) ==> #[trigger] table[i] < cursor,
        forall|i: int| below(table, cursor) <= i < table.len() ==> cursor <= #[trigger] table[i],
    decreases table.len(),
{
    if table.len() > 0 {
        let shorter = table.drop_last();
        assert forall|i: int, j: int| 0 <= i < j < shorter.len() implies #[trigger] shorter[i]
            < #[trigger] shorter[j] by {
            assert(shorter[i] == table[i] && shorter[j] == table[j]);
        }
        lemma_below_splits(shorter, cursor);
        let k = below(shorter, cursor);
        assert forall|i: int| 0 <= i < shorter.len() implies #[trigger] table[i] == shorter[i] by {}
        if table.last() < cursor {
            if k < shorter.len() {
                assert(cursor <= shorter[k as int]);
                assert(table[k as int] < table[table.len() - 1]);
            }
            assert forall|i: int| 0 <= i < below(table, cursor) implies #[trigger] table[i]
                < cursor by {
                if i < shorter.len() {
                    assert(table[i] == shorter[i]);
                }
            }
        } else {
            assert forall|i: int| below(table, cursor) <= i < table.len() implies cursor
                <= #[trigger] table[i] by {
                if i < shorter.len() {
                    assert(table[i] == shorter[i]);
                }
            }
            assert forall|i: int| 0 <= i < below(table, cursor) implies #[trigger] table[i]
                < cursor by {
                assert(table[i] == shorter[i]);
            }
        }
    }
}

/// In a table that rises, a place that parts the ids below a cursor from
/// the others is the number of ids below the cursor.
pub proof fn lemma_below_is(table: Seq<u64>, cursor: int, place: int)
    requires
        rising_from(table, 0),
        0 <= place <= table.len(),
        forall|i: int| 0 <= i < place ==> #[trigger] table[i] < cursor,
        forall|i: int| place <= i < table.len() ==> cursor <= #[trigger] table[i],
    ensures
        below(table, cursor) == place,
{
    lemma_below_splits(table, cursor);
    let k = below(table, cursor) as int;
    if k < place {
        assert(table[k] < cursor);
        assert(cursor <= table[k]);
    } else if k > place {
        assert(table[place] < cursor);
        assert(cursor <= table[place]);
    }
}

/// Behind a page that was answered by the table, the cursor has passed
/// exactly the ids of the page.
pub proof fn lemma_page_moves_cursor(table: Seq<u64>, start_tid: int, capacity: usize)
    requires
        rising_from(table, 0),
        0 <= start_tid,
    ensures
        below(table, cursor_after(start_tid, page_from(table, start_tid, capacity))) == below(
            table,
            start_tid,
        ) + page_from(table, start_tid, capacity).len(),
        capacity >= 1 && page_from(table, start_tid, capacity).len() == 0 ==> below(
            table,
            start_tid,
        ) == table.len(),
{
    lemma_below_splits(table, start_tid);
    let first = below(table, start_tid) as int;
    let page = page_from(table, start_tid, capacity);
    if page.len() > 0 {
        let place = first + page.len();
        let next = page.last() + 1;
        assert(page.last() == table[place - 1]);
        assert forall|i: int| 0 <= i < place implies #[trigger] table[i] < next by {
            if i < place - 1 {
                assert(table[i] < table[place - 1]);
            }
        }
        assert forall|i: int| place <= i < table.len() implies next <= #[trigger] table[i] by {
            assert(table[place - 1] < table[i]);
        }
        lemma_below_is(table, next, place);
    }
}

/// Where every request of an enumeration was answered by the table, the
/// enumeration has listed the ids of the table from the id that it began
/// at up to its cursor, each once and in order.
pub proof fn lemma_scan_follows_table(
    table: Seq<u64>,
    start_tid: int,
    capacity: usize,
    events: Seq<Event>,
)
    requires
        rising_from(table, 0),
        0 <= start_tid,
        scan(start_tid, capacity, events) is Some,
        faithful(table, events),
    ensures
        start_tid <= scan(start_tid, capacity, events)->0,
        below(table, start_tid) <= below(table, scan(start_tid, capacity, events)->0) <= table.len(),
        listed(events) == table.subrange(
            below(table, start_tid) as int,
            below(table, scan(start_tid, capacity, events)->0) as int,
        ),
    decreases events.len(),
{
    lemma_below_splits(table, start_tid);
    if events.len() == 0 {
        assert(listed(events) =~= table.subrange(
            below(table, start_tid) as int,
            below(table, start_tid) as int,
        ));
    } else {
        let shorter = events.drop_last();
        assert forall|i: int| 0 <= i < shorter.len() implies answers_by(
            table,
            #[trigger] shorter[i],
        ) by {
            assert(shorter[i] == events[i]);
        }
        lemma_scan_follows_table(table, start_tid, capacity, shorter);
        let mid = scan(start_tid, capacity, shorter)->0;
        let end = scan(start_tid, capacity, events)->0;
        let last = events.last();
        assert(events[events.len() - 1] == last);
        assert(answers_by(table, last));
        lemma_below_splits(table, mid);
        lemma_below_splits(table, end);
        match last {
            Event::ListThreads { start_tid: asked, capacity: most, .. } => {
                lemma_page_moves_cursor(table, mid, capacity);
                let page = page_from(table, mid, capacity);
                assert(page_of(last) == page);
                assert(table.subrange(below(table, start_tid) as int, below(table, mid) as int)
                    + page =~= table.subrange(
                    below(table, start_tid) as int,
                    below(table, end) as int,
                ));
            },
            _ => {
                assert(listed(shorter) + page_of(last) =~= listed(shorter));
            },
        }
    }
}

/// An enumeration in pages of at least one id, every request of which was
/// answered by the table, and which came to its end, has listed every id
/// of the table from the id that it began at on, each exactly once and in
/// rising order, however many pages that took.
pub proof fn lemma_scan_covers_table(
    table: Seq<u64>,
    start_tid: u64,
    capacity: usize,
    events: Seq<Event>,
)
    requires
        rising_from(table, 0),
        capacity >= 1,
        scan(start_tid as int, capacity, events) is Some,
        faithful(table, events),
        came_to_end(scan(start_tid as int, capacity, events)->0, events),
    ensures
        listed(events) == ids_from(table, start_tid as int),
        listed(events).no_duplicates(),
        start_tid == 0 ==> listed(events) == table,
{
    let end = scan(start_tid as int, capacity, events)->0;
    lemma_scan_follows_table(table, start_tid as int, capacity, events);
    lemma_below_splits(table, end);
    if end == cursor_end() {
        lemma_below_is(table, end, table.len() as int);
    } else {
        let last = events.last();
        let shorter = events.drop_last();
        assert(events[events.len() - 1] == last);
        assert(answers_by(table, last));
        let mid = scan(start_tid as int, capacity, shorter)->0;
        assert forall|i: int| 0 <= i < shorter.len() implies answers_by(
            table,
            #[trigger] shorter[i],
        ) by {
            assert(shorter[i] == events[i]);
        }
        lemma_scan_follows_table(table, start_tid as int, capacity, shorter);
        lemma_page_moves_cursor(table, mid, capacity);
        assert(mid == end);
    }
    assert(below(table, end) == table.len());
    assert(table.subrange(below(table, start_tid as int) as int, table.len() as int) =~= ids_from(
        table,
        start_tid as int,
    ));
    let ids = listed(events);
    assert forall|i: int, j: int| 0 <= i < ids.len() && 0 <= j < ids.len() && i != j implies ids[i]
        != ids[j] by {
        let first = below(table, start_tid as int) as int;
        assert(ids[i] == table[first + i]);
        assert(ids[j] == table[first + j]);
        if i < j {
            assert(table[first + i] < table[first + j]);
        } else {
            assert(table[first + j] < table[first + i]);
        }
    }
    if start_tid == 0 {
        lemma_below_is(table, 0, 0);
        assert(table.skip(0) =~= table);
    }
}

} // verus!
