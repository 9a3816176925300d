//! A debug session: freezing a process, looking at its threads, and making
//! sure that every thread runs again before the process is let go.
//!
//! A session moves forward through its states, one operation at a time:
//! `pause` takes it from `Attached` to `Paused`, `snapshot_all_threads`
//! leaves it `Paused`, `resume_all` takes it to `Resuming`, and `detach`
//! to `Detached`. An operation that does not belong to the state of the
//! session is refused and asks nothing of the channel.

use vstd::prelude::*;
use std::collections::VecDeque;
use crate::capture::{
    capture_page, found_from, found_in, lemma_finds_nothing, lemma_found_concat, show_all,
    tids_of, ThreadReport,
};
use crate::channel::{DebugChannel, Event, Traced};
use crate::enumerator::{came_to_end, page_size, ThreadEnumerator, PAGE_CAPACITY};
use crate::errors::{check_release, check_resume, Error, Operation, SessionState};
use crate::paging::rising_from;
use crate::trace::{
    cursor_end, failure_of, first_failure, is_scan_event, lemma_concat,
    lemma_first_failure_of_part, lemma_listed_rises, lemma_no_lists, lemma_no_resumes, lemma_push,
    lemma_quiet, lemma_whole, listed, only_resume_events, only_resumes,
    only_scan_events, resumed, scan, stops_at_failure,
};

verus! {

/// The operations of a session.
#[derive(Clone, Copy, Debug, PartialEq, Eq, Structural)]
pub enum Step {
    Pause,
    Snapshot,
    ResumeAll,
    Detach,
}

/// The state that a session must be in for `step`.
pub open spec fn state_for(step: Step) -> SessionState {
    match step {
        Step::Pause => SessionState::Attached,
        Step::Snapshot => SessionState::Paused,
        Step::ResumeAll => SessionState::Paused,
        Step::Detach => SessionState::Resuming,
    }
}

/// The state that `step` leaves a session in where nothing fails.
pub open spec fn state_after(step: Step) -> SessionState {
    match step {
        Step::Pause => SessionState::Paused,
        Step::Snapshot => SessionState::Paused,
        Step::ResumeAll => SessionState::Resuming,
        Step::Detach => SessionState::Detached,
    }
}

/// Each state admits the steps that lead on from it and no others: a
/// session that is attached can only be paused, one that is paused can be
/// looked at and resumed, one that is resuming can only be detached, and
/// each step leaves the session in a state from which the next goes on.
pub proof fn lemma_steps_in_order(step: Step)
    ensures
        state_for(step) == SessionState::Attached <==> step == Step::Pause,
        state_for(step) == SessionState::Paused <==> step == Step::Snapshot || step
            == Step::ResumeAll,
        state_for(step) == SessionState::Resuming <==> step == Step::Detach,
        state_after(Step::Pause) == state_for(Step::Snapshot),
        state_after(Step::Snapshot) == state_for(Step::ResumeAll),
        state_after(Step::ResumeAll) == state_for(Step::Detach),
{
}

/// No step belongs to a session that is detached, nor does any step but the
/// detach itself lead there: behind the detach every operation is refused.
pub proof fn lemma_nothing_after_detach(step: Step)
    ensures
        state_for(step) != SessionState::Detached,
        state_after(step) == SessionState::Detached <==> step == Step::Detach,
{
}

/// Whether `events` are those of a scan, of making the threads run again
/// and of letting the process go, in this order and with nothing between
/// them: `scan` those of the scan, `resume` those of the resuming, and
/// `release` those of the detach.
///
/// The scan asks for thread ids from the cursor `from` on, in pages of
/// `capacity`, and for the state and the memory of the threads, until a
/// page comes without ids or an answer stands for an error; `reports` are
/// of the threads that it listed. The resuming begins with the request that
/// the process no longer be held and goes on with requests that threads run
/// again and for thread ids from where the scan left the cursor, until a
/// page comes without ids or an answer stands for an error. The process is
/// let go only where the resuming met no error: then the detach is asked
/// for, and behind a detach that was granted the handle is given back, and
/// nothing else. The session is `Detached` behind a detach that was
/// granted, and `Resuming` otherwise.
pub open spec fn ran_all(
    events: Seq<Event>,
    reports: Seq<ThreadReport>,
    state: SessionState,
    from: int,
    capacity: usize,
    scan_part: Seq<Event>,
    resume_part: Seq<Event>,
    release_part: Seq<Event>,
) -> bool {
    &&& events == scan_part + resume_part + release_part
    &&& only_scan_events(scan_part)
    &&& stops_at_failure(scan_part)
    &&& tids_of(reports) == listed(scan_part)
    &&& scan(from, capacity, scan_part) is Some
    &&& first_failure(scan_part) is None ==> came_to_end(
        scan(from, capacity, scan_part)->0,
        scan_part,
    )
    &&& resume_part.len() >= 1
    &&& only_resume_events(resume_part)
    &&& stops_at_failure(resume_part)
    &&& scan(from, capacity, scan_part + resume_part) is Some
    &&& first_failure(resume_part) is None ==> came_to_end(
        scan(from, capacity, scan_part + resume_part)->0,
        resume_part,
    )
    &&& if first_failure(resume_part) is Some {
        &&& release_part.len() == 0
        &&& state == SessionState::Resuming
    } else if failure_of(release_part[0]) is None {
        &&& release_part.len() == 2
        &&& release_part[0] is Detach
        &&& release_part[1] is Release
        &&& state == SessionState::Detached
    } else {
        &&& release_part.len() == 1
        &&& release_part[0] is Detach
        &&& state == SessionState::Resuming
    }
}

/// Whether `events` are those of a scan, of making the threads run again
/// and of letting the process go, one behind the other, as `ran_all` says
/// of their three parts.
pub open spec fn did_all(
    events: Seq<Event>,
    reports: Seq<ThreadReport>,
    state: SessionState,
    from: int,
    capacity: usize,
) -> bool {
    exists|scan_part: Seq<Event>, resume_part: Seq<Event>, release_part: Seq<Event>|
        ran_all(events, reports, state, from, capacity, scan_part, resume_part, release_part)
}

/// What a scan of the threads of a process found: a report of each thread
/// that the channel listed, in the order of the listing, and the error that
/// ended the scan before its time, if one did.
#[derive(Debug)]
pub struct ThreadScan {
    pub reports: Vec<ThreadReport>,
    pub failure: Option<Error>,
}

/// Puts the ids of `page` behind those that are pending.
fn enqueue(pending: &mut VecDeque<u64>, page: &Vec<u64>)
    ensures
        final(pending)@ == old(pending)@ + page@,
{
    let mut i: usize = 0;
    proof {
        assert(pending@ + page@.take(0) =~= pending@);
    }
    while i < page.len()
        invariant
            i <= page@.len(),
            pending@ == old(pending)@ + page@.take(i as int),
        decreases page@.len() - i,
    {
        pending.push_back(page[i]);
        proof {
            assert((old(pending)@ + page@.take(i as int)).push(page@[i as int]) =~= old(pending)@
                + page@.take(i + 1));
        }
        i = i + 1;
    }
    proof {
        assert(page@.take(i as int) =~= page@);
    }
}

/// Asks each pending thread to run again, the one seen first before the
/// others. A thread that runs already, is gone, or cannot be resumed yet is
/// passed over; any other refusal ends the pass with its error and leaves
/// the threads behind that one pending.
fn resume_pending<C: DebugChannel>(link: &mut Traced<C>, pending: &mut VecDeque<u64>) -> (r: Result<
    (),
    Error,
>)
    ensures
        final(link).continues(old(link).trace()),
        only_resumes(final(link).since(old(link).trace())),
        resumed(final(link).since(old(link).trace())) + final(pending)@ == old(pending)@,
        r.err() == first_failure(final(link).since(old(link).trace())),
        stops_at_failure(final(link).since(old(link).trace())),
        r is Ok ==> final(pending)@ == Seq::<u64>::empty(),
{
    let ghost before = link.trace();
    let ghost mut added: Seq<Event> = Seq::empty();
    proof {
        assert(before + added =~= before);
        assert(resumed(added) + pending@ =~= pending@);
    }
    while pending.len() > 0
        invariant
            before == old(link).trace(),
            link.trace() == before + added,
            only_resumes(added),
            resumed(added) + pending@ == old(pending)@,
            first_failure(added) is None,
        decreases pending@.len(),
    {
        let ghost waiting = pending@;
        let ghost prior = link.trace();
        let ghost asked = added;
        let tid = pending.pop_front().unwrap();
        let answer = link.resume_thread(tid);
        proof {
            let event = link.trace().last();
            lemma_push(added, event);
            assert(prior.push(event) =~= before + added.push(event));
            assert((resumed(added) + seq![tid]) + pending@ =~= resumed(added) + waiting);
            added = added.push(event);
            assert(added.drop_last() =~= asked);
        }
        match check_resume(tid, answer) {
            Ok(_) => {},
            Err(e) => {
                proof {
                    assert(link.trace().skip(before.len() as int) =~= added);
                }
                return Err(e);
            },
        }
    }
    proof {
        assert(link.trace().skip(before.len() as int) =~= added);
        assert(pending@ =~= Seq::<u64>::empty());
        lemma_first_failure_of_part(added);
    }
    Ok(())
}

/// A debug session over one channel.
pub struct Session<C: DebugChannel> {
    link: Traced<C>,
    state: SessionState,
    pending: VecDeque<u64>,
    enumerator: ThreadEnumerator,
}

impl<C: DebugChannel> Session<C> {
    /// Everything that the session has asked of its channel, with the
    /// answers.
    pub closed spec fn trace(&self) -> Seq<Event> {
        self.link.trace()
    }

    /// The events that have come to the trace since it was `before`.
    pub open spec fn since(&self, before: Seq<Event>) -> Seq<Event> {
        self.trace().skip(before.len() as int)
    }

    /// Whether the trace is `before` with more events behind it, or none.
    pub open spec fn continues(&self, before: Seq<Event>) -> bool {
        self.trace() == before + self.since(before)
    }

    /// The state of the session.
    pub closed spec fn state(&self) -> SessionState {
        self.state
    }

    /// The threads that the session has seen and not yet asked to run
    /// again, the one seen first in front.
    pub closed spec fn pending(&self) -> Seq<u64> {
        self.pending@
    }

    /// The channel of the session, as it now is.
    pub closed spec fn held(&self) -> C {
        self.link.held()
    }

    /// The cursor of the session's enumeration of threads.
    pub closed spec fn cursor(&self) -> int {
        self.enumerator.cursor()
    }

    /// The most thread ids that the session asks for at a time.
    pub closed spec fn capacity(&self) -> usize {
        self.enumerator.capacity
    }

    /// What holds of a session at all times. It asks for at least one thread
    /// id at a time. Its requests for thread ids are those of one
    /// enumeration from the id zero on, which stands at the cursor. And
    /// every thread that the channel listed was asked to run again or is
    /// pending, in the order of the listing.
    pub closed spec fn inv(&self) -> bool {
        &&& self.enumerator.capacity >= 1
        &&& scan(0, self.enumerator.capacity, self.link.trace()) == Some(self.enumerator.cursor())
        &&& resumed(self.link.trace()) + self.pending@ == listed(self.link.trace())
    }

    /// No thread is lost: every thread that the channel has listed to the
    /// session was asked to run again or is still pending, in the order of
    /// the listing; and the listing is that of one enumeration from the id
    /// zero on, in pages of at least one id, which stands at the cursor of
    /// the session.
    pub proof fn lemma_no_thread_is_lost(&self)
        requires
            self.inv(),
        ensures
            self.capacity() >= 1,
            scan(0, self.capacity(), self.trace()) == Some(self.cursor()),
            resumed(self.trace()) + self.pending() == listed(self.trace()),
    {
    }

    /// A session over a channel that is attached to a process, with pages
    /// of `PAGE_CAPACITY` thread ids.
    pub fn over(channel: C) -> (s: Self)
        ensures
            s.inv(),
            s.state() == SessionState::Attached,
            s.trace() == Seq::<Event>::empty(),
            s.pending() == Seq::<u64>::empty(),
            s.cursor() == 0,
            s.capacity() == PAGE_CAPACITY,
            s.held() == channel,
    {
        Self::with_page_capacity(channel, PAGE_CAPACITY)
    }

    /// A session over a channel that the attach to the process `pid` has
    /// just given, with pages of `PAGE_CAPACITY` thread ids. The attach is
    /// the first event of its trace.
    pub(crate) fn over_attached(channel: C, pid: u64) -> (s: Self)
        ensures
            s.inv(),
            s.state() == SessionState::Attached,
            s.trace() == seq![Event::Attach { pid, answer: Ok(()) }],
            s.pending() == Seq::<u64>::empty(),
            s.cursor() == 0,
            s.capacity() == PAGE_CAPACITY,
            s.held() == channel,
    {
        let s = Session {
            link: Traced::attached(channel, pid),
            state: SessionState::Attached,
            pending: VecDeque::new(),
            enumerator: ThreadEnumerator::new(0, PAGE_CAPACITY),
        };
        proof {
            let first = Event::Attach { pid, answer: Ok(()) };
            lemma_push(Seq::<Event>::empty(), first);
            assert(Seq::<Event>::empty().push(first) =~= seq![first]);
            assert(resumed(s.link.trace()) + s.pending@ =~= listed(s.link.trace()));
        }
        s
    }

    /// A session over a channel that is attached to a process, with pages
    /// of `capacity` thread ids, and of one id where `capacity` is zero.
    pub fn with_page_capacity(channel: C, capacity: usize) -> (s: Self)
        ensures
            s.inv(),
            s.state() == SessionState::Attached,
            s.trace() == Seq::<Event>::empty(),
            s.pending() == Seq::<u64>::empty(),
            s.cursor() == 0,
            s.capacity() == page_size(capacity),
            s.held() == channel,
    {
        let s = Session {
            link: Traced::new(channel),
            state: SessionState::Attached,
            pending: VecDeque::new(),
            enumerator: ThreadEnumerator::new(0, capacity),
        };
        proof {
            assert(resumed(s.link.trace()) + s.pending@ =~= listed(s.link.trace()));
        }
        s
    }

    /// The state of the session.
    pub fn current_state(&self) -> (state: SessionState)
        ensures
            state == self.state(),
    {
        self.state
    }

    /// The number of threads that the session has seen and not yet asked to
    /// run again.
    pub fn pending_len(&self) -> (n: usize)
        ensures
            n == self.pending().len(),
    {
        self.pending.len()
    }

    /// The channel of the session, to look at.
    pub fn channel(&self) -> (channel: &C)
        ensures
            *channel == self.held(),
    {
        self.link.channel()
    }

    /// Asks that the process be frozen. Its threads freeze one by one, so
    /// the caller waits a moment before it looks at them.
    pub fn pause(&mut self) -> (r: Result<(), Error>)
        requires
            old(self).inv(),
        ensures
            final(self).inv(),
            final(self).pending() == old(self).pending(),
            final(self).cursor() == old(self).cursor(),
            final(self).capacity() == old(self).capacity(),
            old(self).state() != state_for(Step::Pause) ==> {
                &&& r == Err::<(), Error>(Error::OutOfOrder { state: old(self).state() })
                &&& final(self).state() == old(self).state()
                &&& final(self).trace() == old(self).trace()
                &&& final(self).held() == old(self).held()
            },
            old(self).state() == state_for(Step::Pause) ==> {
                &&& final(self).trace() == old(self).trace().push(final(self).trace().last())
                &&& final(self).trace().last() is Pause
                &&& r.err() == failure_of(final(self).trace().last())
                &&& final(self).state() == if r is Ok {
                    state_after(Step::Pause)
                } else {
                    old(self).state()
                }
            },
    {
        if self.state != SessionState::Attached {
            return Err(Error::OutOfOrder { state: self.state });
        }
        let answer = self.link.pause();
        proof {
            let event = self.link.trace().last();
            assert(self.link.trace() =~= old(self).link.trace().push(event));
            lemma_push(old(self).link.trace(), event);
            assert(resumed(old(self).link.trace()) + Seq::<u64>::empty() =~= resumed(
                old(self).link.trace(),
            ));
            assert(listed(old(self).link.trace()) + Seq::<u64>::empty() =~= listed(
                old(self).link.trace(),
            ));
        }
        match answer {
            Ok(_) => {
                self.state = SessionState::Paused;
                Ok(())
            },
            Err(code) => Err(Error::ChannelFailure { operation: Operation::Pause, code }),
        }
    }

    /// Looks at every thread of the frozen process: lists the threads from
    /// the cursor on, page by page, and captures each thread that is listed.
    /// Every listed thread becomes pending, whether its state could be had
    /// or not. The scan ends at a page without ids, or before its time at
    /// the first answer to a listing that is refused or against the rules;
    /// the reports made up to there are handed out with that error.
    pub fn snapshot_all_threads(&mut self) -> (out: ThreadScan)
        requires
            old(self).inv(),
        ensures
            final(self).inv(),
            final(self).capacity() == old(self).capacity(),
            final(self).state() == old(self).state(),
            old(self).state() != state_for(Step::Snapshot) ==> {
                &&& out.failure == Some(Error::OutOfOrder { state: old(self).state() })
                &&& out.reports@.len() == 0
                &&& final(self).trace() == old(self).trace()
                &&& final(self).held() == old(self).held()
                &&& final(self).pending() == old(self).pending()
                &&& final(self).cursor() == old(self).cursor()
            },
            old(self).state() == state_for(Step::Snapshot) ==> {
                &&& final(self).continues(old(self).trace())
                &&& only_scan_events(final(self).since(old(self).trace()))
                &&& out.failure == first_failure(final(self).since(old(self).trace()))
                &&& stops_at_failure(final(self).since(old(self).trace()))
                &&& tids_of(out.reports@) == listed(final(self).since(old(self).trace()))
                &&& show_all(out.reports@, found_in(final(self).since(old(self).trace())))
                &&& final(self).pending() == old(self).pending() + listed(
                    final(self).since(old(self).trace()),
                )
                &&& resumed(final(self).since(old(self).trace())) == Seq::<u64>::empty()
                &&& scan(old(self).cursor(), old(self).capacity(), final(self).since(old(self).trace()))
                    == Some(final(self).cursor())
                &&& out.failure is None ==> came_to_end(
                    final(self).cursor(),
                    final(self).since(old(self).trace()),
                )
            },
    {
        let mut reports: Vec<ThreadReport> = Vec::new();
        if self.state != SessionState::Paused {
            return ThreadScan { reports, failure: Some(Error::OutOfOrder { state: self.state }) };
        }
        let ghost before = self.link.trace();
        let ghost waiting = self.pending@;
        let ghost from = self.enumerator.cursor();
        let ghost capacity = self.enumerator.capacity;
        let ghost mut added: Seq<Event> = Seq::empty();
        proof {
            assert(before + added =~= before);
            assert(waiting + listed(added) =~= waiting);
            assert(tids_of(reports@) =~= listed(added));
        }
        loop
            invariant
                before == old(self).link.trace(),
                waiting == old(self).pending@,
                from == old(self).enumerator.cursor(),
                capacity == old(self).enumerator.capacity,
                old(self).inv(),
                old(self).state == SessionState::Paused,
                self.state == old(self).state,
                self.enumerator.capacity == capacity,
                self.link.trace() == before + added,
                scan(from, capacity, added) == Some(self.enumerator.cursor()),
                resumed(added) == Seq::<u64>::empty(),
                self.pending@ == waiting + listed(added),
                first_failure(added) is None,
                tids_of(reports@) == listed(added),
                only_scan_events(added),
                show_all(reports@, found_in(added)),
            decreases cursor_end() - self.enumerator.cursor(),
        {
            let ghost prior = self.link.trace();
            let ghost at = self.enumerator.cursor();
            let ghost asked = added;
            let r = self.enumerator.next_page(&mut self.link);
            proof {
                if at < cursor_end() {
                    let event = self.link.trace().last();
                    lemma_push(added, event);
                    assert(prior.push(event) =~= before + added.push(event));
                    assert(resumed(added) + Seq::<u64>::empty() =~= resumed(added));
                    added = added.push(event);
                    assert(added.drop_last() =~= asked);
                    assert(found_in(added) == found_in(asked));
                    assert forall|i: int| 0 <= i < added.len() implies is_scan_event(
                        #[trigger] added[i],
                    ) by {
                        if i < asked.len() {
                            assert(added[i] == asked[i]);
                        }
                    }
                } else {
                    lemma_first_failure_of_part(added);
                }
            }
            match r {
                Err(e) => {
                    proof {
                        assert(listed(added) =~= listed(added.drop_last()));
                        assert(self.link.trace().skip(before.len() as int) =~= added);
                        lemma_whole(
                            before,
                            added,
                            capacity,
                            from,
                            self.enumerator.cursor(),
                            waiting,
                            self.pending@,
                        );
                    }
                    return ThreadScan { reports, failure: Some(e) };
                },
                Ok(page) => {
                    if page.len() == 0 {
                        proof {
                            lemma_first_failure_of_part(added);
                            assert(listed(added) =~= tids_of(reports@));
                            assert(waiting + listed(added) =~= self.pending@);
                            assert(self.link.trace().skip(before.len() as int) =~= added);
                            lemma_whole(
                                before,
                                added,
                                capacity,
                                from,
                                self.enumerator.cursor(),
                                waiting,
                                self.pending@,
                            );
                        }
                        return ThreadScan { reports, failure: None };
                    }
                    let ghost listed_before = tids_of(reports@);
                    enqueue(&mut self.pending, &page);
                    let ghost mid = self.link.trace();
                    capture_page(&mut self.link, &page, &mut reports, Ghost(found_in(added)));
                    proof {
                        let events = self.link.since(mid);
                        lemma_quiet(events);
                        lemma_concat(added, events);
                        lemma_found_concat(Seq::empty(), added, events);
                        assert forall|i: int| 0 <= i < (added + events).len() implies is_scan_event(
                            #[trigger] (added + events)[i],
                        ) by {
                            if i < added.len() {
                                assert((added + events)[i] == added[i]);
                            } else {
                                assert((added + events)[i] == events[i - added.len()]);
                            }
                        }
                        assert(self.link.trace() =~= before + (added + events));
                        assert(listed(added) + Seq::<u64>::empty() =~= listed(added));
                        assert(resumed(added) + Seq::<u64>::empty() =~= resumed(added));
                        assert((waiting + listed_before) + page@ =~= waiting + (listed_before
                            + page@));
                        added = added + events;
                    }
                },
            }
        }
    }

    /// Makes every thread run again that the session has frozen: first
    /// tells the channel that the process is no longer held, then asks each
    /// pending thread to run again, the one seen first before the others,
    /// and then lists the threads from the cursor on and asks each thread
    /// that has come since to run again, until a page comes without ids.
    /// The ids behind the cursor are fewer with every page that holds one,
    /// so this comes to an end. A thread that runs already, is gone, or
    /// cannot be resumed yet is passed over. The first answer that stands
    /// for an error ends the operation; the threads that were not asked by
    /// then stay pending.
    pub fn resume_all(&mut self) -> (r: Result<(), Error>)
        requires
            old(self).inv(),
        ensures
            final(self).inv(),
            final(self).capacity() == old(self).capacity(),
            old(self).state() != state_for(Step::ResumeAll) ==> {
                &&& r == Err::<(), Error>(Error::OutOfOrder { state: old(self).state() })
                &&& final(self).state() == old(self).state()
                &&& final(self).trace() == old(self).trace()
                &&& final(self).held() == old(self).held()
                &&& final(self).pending() == old(self).pending()
                &&& final(self).cursor() == old(self).cursor()
            },
            old(self).state() == state_for(Step::ResumeAll) ==> {
                &&& final(self).state() == state_after(Step::ResumeAll)
                &&& final(self).continues(old(self).trace())
                &&& final(self).since(old(self).trace()).len() >= 1
                &&& final(self).since(old(self).trace())[0] is ResumeProcess
                &&& only_resume_events(final(self).since(old(self).trace()))
                &&& r.err() == first_failure(final(self).since(old(self).trace()))
                &&& stops_at_failure(final(self).since(old(self).trace()))
                &&& resumed(final(self).since(old(self).trace())) + final(self).pending() == old(
                    self,
                ).pending() + listed(final(self).since(old(self).trace()))
                &&& scan(old(self).cursor(), old(self).capacity(), final(self).since(old(self).trace()))
                    == Some(final(self).cursor())
                &&& r is Ok ==> {
                    &&& final(self).pending() == Seq::<u64>::empty()
                    &&& resumed(final(self).trace()) == listed(final(self).trace())
                    &&& came_to_end(final(self).cursor(), final(self).since(old(self).trace()))
                }
            },
    {
        if self.state != SessionState::Paused {
            return Err(Error::OutOfOrder { state: self.state });
        }
        let ghost before = self.link.trace();
        let ghost waiting = self.pending@;
        let ghost from = self.enumerator.cursor();
        let ghost capacity = self.enumerator.capacity;
        self.state = SessionState::Resuming;
        let answer = self.link.resume_process();
        let ghost first = self.link.trace().last();
        let ghost mut added: Seq<Event> = seq![first];
        proof {
            assert(self.link.trace() =~= before + added);
            lemma_push(Seq::<Event>::empty(), first);
            assert(Seq::<Event>::empty().push(first) =~= added);
            assert(resumed(added) + self.pending@ =~= waiting + listed(added));
            assert(added.drop_last() =~= Seq::<Event>::empty());
        }
        if let Err(code) = answer {
            proof {
                assert(self.link.trace().skip(before.len() as int) =~= added);
                lemma_whole(before, added, capacity, from, from, waiting, self.pending@);
            }
            return Err(Error::ChannelFailure { operation: Operation::ResumeProcess, code });
        }
        loop
            invariant
                before == old(self).link.trace(),
                waiting == old(self).pending@,
                from == old(self).enumerator.cursor(),
                capacity == old(self).enumerator.capacity,
                old(self).inv(),
                old(self).state == SessionState::Paused,
                self.state == SessionState::Resuming,
                self.enumerator.capacity == capacity,
                self.link.trace() == before + added,
                added.len() >= 1,
                added[0] is ResumeProcess,
                scan(from, capacity, added) == Some(self.enumerator.cursor()),
                resumed(added) + self.pending@ == waiting + listed(added),
                first_failure(added) is None,
                only_resume_events(added),
            decreases cursor_end() - self.enumerator.cursor(),
        {
            let ghost prior = self.link.trace();
            let ghost queue = self.pending@;
            let drained = resume_pending(&mut self.link, &mut self.pending);
            proof {
                let events = self.link.since(prior);
                lemma_no_lists(events);
                lemma_concat(added, events);
                assert(self.link.trace() =~= before + (added + events));
                assert(listed(added) + Seq::<u64>::empty() =~= listed(added));
                assert((resumed(added) + resumed(events)) + self.pending@ =~= resumed(added) + (
                resumed(events) + self.pending@));
                assert((added + events)[0] == added[0]);
                assert forall|i: int| 0 <= i < (added + events).len() implies if i == 0 {
                    #[trigger] (added + events)[i] is ResumeProcess
                } else {
                    (added + events)[i] is ResumeThread || (added + events)[i] is ListThreads
                } by {
                    if i < added.len() {
                        assert((added + events)[i] == added[i]);
                    } else {
                        assert((added + events)[i] == events[i - added.len()]);
                    }
                }
                if events.len() > 0 {
                    assert((added + events).drop_last() =~= added + events.drop_last());
                    lemma_concat(added, events.drop_last());
                } else {
                    assert(added + events =~= added);
                    lemma_first_failure_of_part(added);
                }
                added = added + events;
            }
            if let Err(e) = drained {
                proof {
                    assert(self.link.trace().skip(before.len() as int) =~= added);
                    lemma_whole(
                        before,
                        added,
                        capacity,
                        from,
                        self.enumerator.cursor(),
                        waiting,
                        self.pending@,
                    );
                }
                return Err(e);
            }
            let ghost mid = self.link.trace();
            let ghost at = self.enumerator.cursor();
            let ghost asked = added;
            let r = self.enumerator.next_page(&mut self.link);
            proof {
                if at < cursor_end() {
                    let event = self.link.trace().last();
                    lemma_push(added, event);
                    assert(mid.push(event) =~= before + added.push(event));
                    assert(resumed(added) + Seq::<u64>::empty() =~= resumed(added));
                    assert(added.push(event)[0] == added[0]);
                    added = added.push(event);
                    assert(added.drop_last() =~= asked);
                    assert forall|i: int| 0 <= i < added.len() implies if i == 0 {
                        #[trigger] added[i] is ResumeProcess
                    } else {
                        added[i] is ResumeThread || added[i] is ListThreads
                    } by {
                        if i < asked.len() {
                            assert(added[i] == asked[i]);
                        }
                    }
                } else {
                    lemma_first_failure_of_part(added);
                }
            }
            match r {
                Err(e) => {
                    proof {
                        assert(listed(added) =~= listed(added.drop_last()));
                        assert(self.link.trace().skip(before.len() as int) =~= added);
                        lemma_whole(
                            before,
                            added,
                            capacity,
                            from,
                            self.enumerator.cursor(),
                            waiting,
                            self.pending@,
                        );
                    }
                    return Err(e);
                },
                Ok(page) => {
                    if page.len() == 0 {
                        proof {
                            assert(self.link.trace().skip(before.len() as int) =~= added);
                            assert(resumed(added) + self.pending@ =~= resumed(added));
                            lemma_whole(
                                before,
                                added,
                                capacity,
                                from,
                                self.enumerator.cursor(),
                                waiting,
                                self.pending@,
                            );
                            assert(resumed(self.link.trace()) + self.pending@ =~= resumed(
                                self.link.trace(),
                            ));
                        }
                        return Ok(());
                    }
                    enqueue(&mut self.pending, &page);
                    proof {
                        assert(resumed(added) + (Seq::<u64>::empty() + page@) =~= resumed(added)
                            + page@);
                    }
                },
            }
        }
    }

    /// Behind a session with no thread pending, every thread that the
    /// channel ever listed was asked to run again, and exactly once: the
    /// threads asked are the threads listed, in the same order, and no id
    /// is among them twice.
    pub proof fn lemma_each_listed_thread_resumed_once(&self)
        requires
            self.inv(),
            self.pending() == Seq::<u64>::empty(),
        ensures
            resumed(self.trace()) == listed(self.trace()),
            rising_from(resumed(self.trace()), 0),
            resumed(self.trace()).no_duplicates(),
    {
        let ids = resumed(self.trace());
        assert(ids + Seq::<u64>::empty() =~= ids);
        lemma_listed_rises(0, self.capacity(), self.trace());
        assert forall|i: int, j: int| 0 <= i < ids.len() && 0 <= j < ids.len() && i != j implies ids[i]
            != ids[j] by {
            if i < j {
                assert(ids[i] < ids[j]);
            } else {
                assert(ids[j] < ids[i]);
            }
        }
    }

    /// Looks at every thread of the frozen process, makes every thread run
    /// again, and lets the process go: `snapshot_all_threads`, then
    /// `resume_all` whatever came of the scan, then `detach` where every
    /// thread that was seen has been asked to run again. Where the resuming
    /// ends at an error the process is not let go: threads may still be
    /// frozen, and the session stays `Resuming` with those threads pending.
    /// The reports of the scan are handed out with the first error of the
    /// three steps, if there was one.
    pub fn collect_stacks(&mut self) -> (out: ThreadScan)
        requires
            old(self).inv(),
        ensures
            final(self).inv(),
            final(self).capacity() == old(self).capacity(),
            old(self).state() != state_for(Step::Snapshot) ==> {
                &&& out.failure == Some(Error::OutOfOrder { state: old(self).state() })
                &&& out.reports@.len() == 0
                &&& final(self).state() == old(self).state()
                &&& final(self).trace() == old(self).trace()
                &&& final(self).held() == old(self).held()
                &&& final(self).pending() == old(self).pending()
                &&& final(self).cursor() == old(self).cursor()
            },
            old(self).state() == state_for(Step::Snapshot) ==> {
                &&& final(self).continues(old(self).trace())
                &&& did_all(
                    final(self).since(old(self).trace()),
                    out.reports@,
                    final(self).state(),
                    old(self).cursor(),
                    old(self).capacity(),
                )
                &&& out.failure == first_failure(final(self).since(old(self).trace()))
                &&& show_all(out.reports@, found_in(final(self).since(old(self).trace())))
                &&& resumed(final(self).since(old(self).trace())) + final(self).pending() == old(
                    self,
                ).pending() + listed(final(self).since(old(self).trace()))
                &&& final(self).state() == SessionState::Detached ==> final(self).pending()
                    == Seq::<u64>::empty()
                &&& out.failure is None ==> {
                    &&& final(self).state() == SessionState::Detached
                    &&& resumed(final(self).trace()) == listed(final(self).trace())
                }
            },
    {
        if self.state != SessionState::Paused {
            return ThreadScan {
                reports: Vec::new(),
                failure: Some(Error::OutOfOrder { state: self.state }),
            };
        }
        let ghost before = self.link.trace();
        let ghost waiting = self.pending@;
        let ghost from = self.enumerator.cursor();
        let ghost capacity = self.enumerator.capacity;
        let scanned = self.snapshot_all_threads();
        let ghost after_scan = self.link.trace();
        let resumed_all = self.resume_all();
        let ghost after_resume = self.link.trace();
        let released = match resumed_all {
            Err(e) => Err(e),
            Ok(_) => self.detach(),
        };
        proof {
            let a = after_scan.skip(before.len() as int);
            let b = after_resume.skip(after_scan.len() as int);
            let c = self.link.trace().skip(after_resume.len() as int);
            let all = self.link.trace().skip(before.len() as int);
            if resumed_all is Err {
                assert(c =~= Seq::<Event>::empty());
            }
            assert(self.link.trace() =~= after_resume + c);
            assert(all =~= (a + b) + c);
            assert(all =~= a + (b + c));
            assert(self.link.trace() =~= before + all);
            lemma_concat(a, b);
            lemma_concat(a + b, c);
            assert forall|i: int| 0 <= i < c.len() implies (#[trigger] c[i] is Detach || c[i]
                is Release) by {
                if i == 1 {
                    assert(c[1] is Release);
                }
            }
            lemma_no_lists(c);
            lemma_no_resumes(c);
            assert(listed(a + b) + listed(c) =~= listed(a) + listed(b));
            assert(resumed(a + b) + resumed(c) =~= resumed(b));
            assert(resumed(a) + resumed(b) =~= resumed(b));
            assert(resumed(b) + self.pending@ =~= (waiting + listed(a)) + listed(b));
            assert((waiting + listed(a)) + listed(b) =~= waiting + (listed(a) + listed(b)));
            assert forall|i: int| 0 <= i < (b + c).len() implies !(#[trigger] (b + c)[i]
                is ThreadData) && !((b + c)[i] is ReadWord) by {
                if i < b.len() {
                    assert((b + c)[i] == b[i]);
                } else {
                    assert((b + c)[i] == c[i - b.len()]);
                }
            }
            lemma_found_concat(Seq::empty(), a, b + c);
            lemma_finds_nothing(found_in(a), b + c);
            assert(ran_all(all, scanned.reports@, self.state, from, capacity, a, b, c));
        }
        let failure = match scanned.failure {
            Some(e) => Some(e),
            None => match released {
                Err(e) => Some(e),
                Ok(_) => None,
            },
        };
        ThreadScan { reports: scanned.reports, failure }
    }

    /// Does all that a session is for, from its start to its end: asks that
    /// the process be frozen, waits by calling `settle` so that the threads
    /// can freeze, and then looks at every thread, makes every thread run
    /// again and lets the process go, as `collect_stacks` does. Where the
    /// process cannot be frozen nothing more is asked, and the session
    /// stays attached. Behind a pause that was granted, the events are
    /// those of the scan, of the resuming and of the detach, in this order.
    pub fn inspect<F: FnOnce()>(&mut self, settle: F) -> (out: ThreadScan)
        requires
            old(self).inv(),
            call_requires(settle, ()),
        ensures
            final(self).inv(),
            final(self).capacity() == old(self).capacity(),
            old(self).state() != state_for(Step::Pause) ==> {
                &&& out.failure == Some(Error::OutOfOrder { state: old(self).state() })
                &&& out.reports@.len() == 0
                &&& final(self).state() == old(self).state()
                &&& final(self).trace() == old(self).trace()
                &&& final(self).held() == old(self).held()
                &&& final(self).pending() == old(self).pending()
                &&& final(self).cursor() == old(self).cursor()
            },
            old(self).state() == state_for(Step::Pause) ==> {
                &&& final(self).continues(old(self).trace())
                &&& out.failure == first_failure(final(self).since(old(self).trace()))
                &&& final(self).since(old(self).trace()).len() >= 1
                &&& final(self).since(old(self).trace())[0] is Pause
                &&& show_all(out.reports@, found_in(final(self).since(old(self).trace())))
                &&& resumed(final(self).since(old(self).trace())) + final(self).pending() == old(
                    self,
                ).pending() + listed(final(self).since(old(self).trace()))
                &&& if failure_of(final(self).since(old(self).trace())[0]) is Some {
                    &&& final(self).since(old(self).trace()).len() == 1
                    &&& final(self).state() == old(self).state()
                } else {
                    &&& call_ensures(settle, (), ())
                    &&& did_all(
                        final(self).since(old(self).trace()).skip(1),
                        out.reports@,
                        final(self).state(),
                        old(self).cursor(),
                        old(self).capacity(),
                    )
                }
                &&& final(self).state() == SessionState::Detached ==> final(self).pending()
                    == Seq::<u64>::empty()
                &&& out.failure is None ==> {
                    &&& final(self).state() == SessionState::Detached
                    &&& resumed(final(self).trace()) == listed(final(self).trace())
                }
            },
    {
        if self.state != SessionState::Attached {
            return ThreadScan {
                reports: Vec::new(),
                failure: Some(Error::OutOfOrder { state: self.state }),
            };
        }
        let ghost before = self.link.trace();
        let ghost waiting = self.pending@;
        let paused = self.pause();
        let ghost first = self.link.trace().last();
        let ghost mid = self.link.trace();
        proof {
            assert(mid =~= before + seq![first]);
            assert(mid.skip(before.len() as int) =~= seq![first]);
            lemma_push(Seq::<Event>::empty(), first);
            assert(Seq::<Event>::empty().push(first) =~= seq![first]);
            assert(found_in(seq![first]) =~= Seq::empty()) by {
                assert(seq![first].drop_last() =~= Seq::<Event>::empty());
                assert(found_from(Seq::empty(), Seq::<Event>::empty()) =~= Seq::empty());
            }
            assert(resumed(seq![first]) + waiting =~= waiting + listed(seq![first]));
        }
        if let Err(e) = paused {
            return ThreadScan { reports: Vec::new(), failure: Some(e) };
        }
        settle();
        let out = self.collect_stacks();
        proof {
            let rest = self.link.trace().skip(mid.len() as int);
            let all = self.link.trace().skip(before.len() as int);
            assert(all =~= seq![first] + rest);
            assert(all.skip(1) =~= rest);
            assert(self.link.trace() =~= before + all);
            lemma_concat(seq![first], rest);
            lemma_found_concat(Seq::empty(), seq![first], rest);
            assert(resumed(seq![first]) + resumed(rest) =~= resumed(rest));
            assert(listed(seq![first]) + listed(rest) =~= listed(rest));
        }
        out
    }

    /// Lets the process go, and makes sure that the channel is of no use
    /// any more: behind the detach it gives back the handle of the channel,
    /// which the channel must reject as no longer valid. It does not ask
    /// whether threads are still pending: behind a resuming that ended at
    /// an error it is the caller who decides to give the process up, and
    /// `collect_stacks` and `inspect` never do.
    pub fn detach(&mut self) -> (r: Result<(), Error>)
        requires
            old(self).inv(),
        ensures
            final(self).inv(),
            final(self).pending() == old(self).pending(),
            final(self).cursor() == old(self).cursor(),
            final(self).capacity() == old(self).capacity(),
            old(self).state() != state_for(Step::Detach) ==> {
                &&& r == Err::<(), Error>(Error::OutOfOrder { state: old(self).state() })
                &&& final(self).state() == old(self).state()
                &&& final(self).trace() == old(self).trace()
                &&& final(self).held() == old(self).held()
            },
            old(self).state() == state_for(Step::Detach) ==> {
                &&& final(self).continues(old(self).trace())
                &&& r.err() == first_failure(final(self).since(old(self).trace()))
                &&& final(self).since(old(self).trace()).len() >= 1
                &&& final(self).since(old(self).trace())[0] is Detach
                &&& if failure_of(final(self).since(old(self).trace())[0]) is None {
                    &&& final(self).state() == state_after(Step::Detach)
                    &&& final(self).since(old(self).trace()).len() == 2
                    &&& final(self).since(old(self).trace())[1] is Release
                } else {
                    &&& final(self).state() == old(self).state()
                    &&& final(self).since(old(self).trace()).len() == 1
                }
            },
    {
        if self.state != SessionState::Resuming {
            return Err(Error::OutOfOrder { state: self.state });
        }
        let ghost before = self.link.trace();
        let answer = self.link.detach();
        let ghost first = self.link.trace().last();
        proof {
            assert(self.link.trace() =~= before.push(first));
            lemma_push(before, first);
            lemma_push(Seq::<Event>::empty(), first);
            assert(Seq::<Event>::empty().push(first) =~= seq![first]);
            assert(resumed(before) + Seq::<u64>::empty() =~= resumed(before));
            assert(listed(before) + Seq::<u64>::empty() =~= listed(before));
        }
        match answer {
            Err(code) => {
                proof {
                    assert(self.link.trace().skip(before.len() as int) =~= seq![first]);
                    assert(self.link.trace() =~= before + seq![first]);
                }
                Err(Error::ChannelFailure { operation: Operation::Detach, code })
            },
            Ok(_) => {
                self.state = SessionState::Detached;
                let ghost mid = self.link.trace();
                let probe = self.link.release();
                let ghost second = self.link.trace().last();
                proof {
                    assert(self.link.trace() =~= mid.push(second));
                    lemma_push(mid, second);
                    lemma_push(seq![first], second);
                    assert(seq![first].push(second) =~= seq![first, second]);
                    assert(self.link.trace().skip(before.len() as int) =~= seq![first, second]);
                    assert(self.link.trace() =~= before + seq![first, second]);
                    assert(resumed(mid) + Seq::<u64>::empty() =~= resumed(mid));
                    assert(listed(mid) + Seq::<u64>::empty() =~= listed(mid));
                }
                check_release(probe)
            },
        }
    }
}

} // verus!
