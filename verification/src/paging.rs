//! Judging one page of thread ids.
//!
//! The ids of a process's threads are handed over in pages: each request
//! names the id to start from and the most ids that it takes, and the
//! answer holds the ids from there on in rising order. An answer without
//! ids says that there is no thread from there on.

use vstd::prelude::*;
use crate::channel::page_answer;
use crate::errors::{Error, Operation};

verus! {

/// Whether `ids` rise strictly and none of them lies below `start_tid`.
pub open spec fn rising_from(ids: Seq<u64>, start_tid: int) -> bool {
    &&& forall|i: int| 0 <= i < ids.len() ==> start_tid <= #[trigger] ids[i]
    &&& forall|i: int, j: int| 0 <= i < j < ids.len() ==> #[trigger] ids[i] < #[trigger] ids[j]
}

/// The verdict on the answer to a request for at most `capacity` thread ids
/// from `start_tid` on: the ids of the page, where the channel did not
/// refuse, handed over no more ids than were asked for and than its buffer
/// holds, and the ids rise strictly from `start_tid` or above.
pub open spec fn page_verdict(
    start_tid: u64,
    capacity: usize,
    answer: Result<(usize, Seq<u64>), u16>,
) -> Result<Seq<u64>, Error> {
    match answer {
        Err(code) => Err(Error::ChannelFailure { operation: Operation::ListThreads, code }),
        Ok((count, buffer)) => if count <= capacity && count <= buffer.len() && rising_from(
            buffer.take(count as int),
            start_tid as int,
        ) {
            Ok(buffer.take(count as int))
        } else {
            Err(Error::ProtocolViolation { operation: Operation::ListThreads })
        },
    }
}

/// The ids that follow all of `page`: the id to ask from next, where the
/// request before asked from `next`. It lies past the last id of the page,
/// and stays where it was behind a page without ids.
pub open spec fn cursor_after(next: int, page: Seq<u64>) -> int {
    if page.len() == 0 {
        next
    } else {
        page.last() + 1
    }
}

/// Whether `ids` rise strictly and none of them lies below `start_tid`.
pub fn is_rising_from(ids: &Vec<u64>, start_tid: u64) -> (b: bool)
    ensures
        b == rising_from(ids@, start_tid as int),
{
    let mut k: usize = 0;
    while k < ids.len()
        invariant
            k <= ids@.len(),
            rising_from(ids@.take(k as int), start_tid as int),
        decreases ids@.len() - k,
    {
        let id = ids[k];
        if id < start_tid {
            return false;
        }
        if k > 0 && ids[k - 1] >= id {
            proof {
                assert(!(ids@[k - 1] < ids@[k as int]));
            }
            return false;
        }
        proof {
            let shorter = ids@.take(k as int);
            let longer = ids@.take(k + 1);
            assert forall|i: int| 0 <= i < longer.len() implies start_tid as int
                <= #[trigger] longer[i] by {
                if i < k {
                    assert(longer[i] == shorter[i]);
                }
            }
            assert forall|i: int, j: int| 0 <= i < j < longer.len() implies #[trigger] longer[i]
                < #[trigger] longer[j] by {
                if j < k {
                    assert(longer[i] == shorter[i] && longer[j] == shorter[j]);
                } else if i < k - 1 {
                    assert(longer[i] == shorter[i]);
                    assert(shorter[i] < shorter[k - 1]);
                }
            }
        }
        k = k + 1;
    }
    proof {
        assert(ids@.take(k as int) =~= ids@);
    }
    true
}

/// Judges the answer of the channel to a request for at most `capacity`
/// thread ids from `start_tid` on, and hands out the ids of the page.
pub fn check_page(start_tid: u64, capacity: usize, answer: Result<(usize, Vec<u64>), u16>) -> (r:
    Result<Vec<u64>, Error>)
    ensures
        match page_verdict(start_tid, capacity, page_answer(answer)) {
            Ok(ids) => r matches Ok(page) && page@ == ids,
            Err(e) => r == Err::<Vec<u64>, Error>(e),
        },
{
    match answer {
        Err(code) => Err(Error::ChannelFailure { operation: Operation::ListThreads, code }),
        Ok((count, buffer)) => {
            if count > capacity || count > buffer.len() {
                return Err(Error::ProtocolViolation { operation: Operation::ListThreads });
            }
            let ghost whole = buffer@;
            let mut page = buffer;
            page.truncate(count);
            assert(page@ == whole.take(count as int));
            if is_rising_from(&page, start_tid) {
                Ok(page)
            } else {
                Err(Error::ProtocolViolation { operation: Operation::ListThreads })
            }
        },
    }
}

} // verus!
