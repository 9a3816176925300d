//! Finding all the threads of the debuggee, page by page.

use vstd::prelude::*;
use crate::channel::{DebugChannel, Event, Traced};
use crate::errors::Error;
use crate::paging::{check_page, cursor_after};
use crate::trace::{
    cursor_end, cursor_step, failure_of, first_failure, lemma_first_failure_of_part, lemma_push,
    listed, page_of, scan, stops_at_failure,
};

verus! {

/// Number of thread ids that a session asks for at a time.
pub const PAGE_CAPACITY: usize = 64;

/// An enumeration of the threads of a process, in the order of their ids.
/// It asks for one page at a time and goes on behind the last id that it
/// was given. Behind a page without ids it stays where it is, so that a
/// later request finds the threads that have come since.
#[derive(Clone, Copy, Debug)]
pub struct ThreadEnumerator {
    /// The id to ask from next; none where the last id there is was listed.
    pub next_tid: Option<u64>,
    /// The most ids to ask for at a time.
    pub capacity: usize,
}

/// The most ids that an enumeration asks for at a time where it is told to
/// ask for `capacity`: at least one, for with pages of no id it would find
/// no thread.
pub open spec fn page_size(capacity: usize) -> usize {
    if capacity == 0 {
        1
    } else {
        capacity
    }
}

impl ThreadEnumerator {
    /// The cursor of the enumeration: the id to ask from next, or the end
    /// of all ids.
    pub open spec fn cursor(&self) -> int {
        match self.next_tid {
            Some(tid) => tid as int,
            None => cursor_end(),
        }
    }

    /// An enumeration of the threads from `start_tid` on, in pages of at
    /// most `capacity` ids, and of one id where `capacity` is zero.
    pub fn new(start_tid: u64, capacity: usize) -> (e: Self)
        ensures
            e.cursor() == start_tid,
            e.capacity == page_size(capacity),
    {
        let capacity = if capacity == 0 {
            1
        } else {
            capacity
        };
        ThreadEnumerator { next_tid: Some(start_tid), capacity }
    }

    /// Asks the channel for the next page of thread ids and moves behind
    /// it. The page is without ids where there is no thread from the cursor
    /// on; nothing is asked where the cursor is at the end of all ids. An
    /// answer against the rules of paging is an error, and leaves the
    /// enumeration where it was.
    pub fn next_page<C: DebugChannel>(&mut self, link: &mut Traced<C>) -> (r: Result<
        Vec<u64>,
        Error,
    >)
        ensures
            final(self).capacity == old(self).capacity,
            old(self).next_tid is None ==> {
                &&& final(link).trace() == old(link).trace()
                &&& *final(self) == *old(self)
                &&& r matches Ok(page)
                &&& page@ == Seq::<u64>::empty()
            },
            old(self).next_tid is Some ==> {
                &&& final(link).trace() == old(link).trace().push(final(link).trace().last())
                &&& final(link).trace().last() is ListThreads
                &&& cursor_step(old(self).cursor(), old(self).capacity, final(link).trace().last())
                    == Some(final(self).cursor())
                &&& r.err() == failure_of(final(link).trace().last())
                &&& r matches Ok(page) ==> page@ == page_of(final(link).trace().last())
            },
            r matches Ok(page) ==> {
                &&& final(self).cursor() == cursor_after(old(self).cursor(), page@)
                &&& page@.len() > 0 ==> old(self).cursor() < final(self).cursor() <= cursor_end()
            },
            r is Err ==> *final(self) == *old(self),
    {
        match self.next_tid {
            None => Ok(Vec::new()),
            Some(start_tid) => {
                let answer = link.list_threads(start_tid, self.capacity);
                proof {
                    let event = link.trace().last();
                    assert(link.trace() =~= old(link).trace().push(event));
                }
                match check_page(start_tid, self.capacity, answer) {
                    Err(e) => Err(e),
                    Ok(page) => {
                        let n = page.len();
                        if n > 0 {
                            let last = page[n - 1];
                            if last == u64::MAX {
                                self.next_tid = None;
                            } else {
                                self.next_tid = Some(last + 1);
                            }
                            assert(page@.last() == last);
                            assert(start_tid <= last);
                        }
                        Ok(page)
                    },
                }
            },
        }
    }
}

/// Whether an enumeration that ran through `events` came to its end: the
/// last answer was a page without ids, or the cursor `cursor` reached the
/// end of all ids.
pub open spec fn came_to_end(cursor: int, events: Seq<Event>) -> bool {
    cursor == cursor_end() || (events.len() > 0 && events.last() is ListThreads && page_of(
        events.last(),
    ).len() == 0 && failure_of(events.last()) is None)
}

/// Whether every event of `events` is a request for thread ids.
pub open spec fn only_lists(events: Seq<Event>) -> bool {
    forall|i: int| 0 <= i < events.len() ==> #[trigger] events[i] is ListThreads
}

/// Lists the ids of all the threads of the debuggee from `start_tid` on, in
/// rising order, asking for at most `capacity` ids at a time, and for one
/// where `capacity` is zero, until a page comes without ids. The first
/// answer that is refused or against the rules of paging ends the listing
/// with its error.
pub fn list_from<C: DebugChannel>(link: &mut Traced<C>, start_tid: u64, capacity: usize) -> (r:
    Result<Vec<u64>, Error>)
    ensures
        final(link).continues(old(link).trace()),
        only_lists(final(link).since(old(link).trace())),
        scan(start_tid as int, page_size(capacity), final(link).since(old(link).trace())) is Some,
        r.err() == first_failure(final(link).since(old(link).trace())),
        stops_at_failure(final(link).since(old(link).trace())),
        r matches Ok(ids) ==> {
            &&& ids@ == listed(final(link).since(old(link).trace()))
            &&& came_to_end(
                scan(start_tid as int, page_size(capacity), final(link).since(old(link).trace()))->0,
                final(link).since(old(link).trace()),
            )
        },
{
    let ghost before = link.trace();
    let ghost mut added: Seq<Event> = Seq::empty();
    let mut enumerator = ThreadEnumerator::new(start_tid, capacity);
    let mut ids: Vec<u64> = Vec::new();
    proof {
        assert(before + added =~= before);
    }
    loop
        invariant
            before == old(link).trace(),
            link.trace() == before + added,
            only_lists(added),
            enumerator.capacity == page_size(capacity),
            scan(start_tid as int, page_size(capacity), added) == Some(enumerator.cursor()),
            first_failure(added) is None,
            ids@ == listed(added),
            enumerator.cursor() <= cursor_end(),
        ensures
            link.trace() == before + added,
            only_lists(added),
            scan(start_tid as int, page_size(capacity), added) is Some,
        decreases cursor_end() - enumerator.cursor(),
    {
        let ghost prior = link.trace();
        let ghost at = enumerator.cursor();
        let ghost asked = added;
        let r = enumerator.next_page(link);
        proof {
            if at < cursor_end() {
                let event = link.trace().last();
                lemma_push(added, event);
                assert(prior.push(event) =~= before + added.push(event));
                added = added.push(event);
                assert(added.drop_last() =~= asked);
            }
        }
        match r {
            Err(e) => {
                proof {
                    assert(link.trace().skip(before.len() as int) =~= added);
                }
                return Err(e);
            },
            Ok(page) => {
                if page.len() == 0 {
                    proof {
                        assert(link.trace().skip(before.len() as int) =~= added);
                        assert(listed(added) =~= ids@);
                        if added.len() > 0 && at == cursor_end() {
                            lemma_first_failure_of_part(added);
                        }
                    }
                    return Ok(ids);
                }
                let mut page = page;
                ids.append(&mut page);
            },
        }
    }
}

} // verus!
