//! The debug channel, and the record of what was asked of it.

use vstd::prelude::*;
use crate::snapshot::ThreadRuntimeSnapshot;

verus! {

/// A debug channel to one process: what this library asks of the system
/// that lets it look into the process. Each operation is one request; a
/// refusal comes back as the code of the error.
pub trait DebugChannel {
    /// Asks that the process and all its threads be frozen. The threads
    /// freeze one by one, each when it next can.
    fn pause(&mut self) -> Result<(), u16>;

    /// Asks for the ids of threads from `start_tid` on, in rising order, at
    /// most `capacity` of them. The answer is the number of ids handed over
    /// and the buffer that they were put into; the number zero says that
    /// there is no such thread.
    fn list_threads(&mut self, start_tid: u64, capacity: usize) -> Result<(usize, Vec<u64>), u16>;

    /// Asks for the state of the thread `tid`.
    fn thread_data(&mut self, tid: u64) -> Result<ThreadRuntimeSnapshot, u16>;

    /// Asks for the word at `addr` in the memory of the process. The answer
    /// is the number of bytes handed over and the word made of them.
    fn read_word(&mut self, addr: u64) -> Result<(usize, u64), u16>;

    /// Asks that the process no longer be held frozen. This resumes no
    /// thread that froze already.
    fn resume_process(&mut self) -> Result<(), u16>;

    /// Asks that the frozen thread `tid` run again.
    fn resume_thread(&mut self, tid: u64) -> Result<(), u16>;

    /// Asks that the process be let go.
    fn detach(&mut self) -> Result<(), u16>;

    /// Gives back the handle of the channel. Behind a detach the system must
    /// reject this, as it must reject every use of the handle.
    fn release(&mut self) -> Result<(), u16>;
}

/// One request to a debug channel, with the answer that came back.
#[allow(inconsistent_fields)]
pub enum Event {
    Attach { pid: u64, answer: Result<(), u16> },
    Pause { answer: Result<(), u16> },
    ListThreads { start_tid: u64, capacity: usize, answer: Result<(usize, Seq<u64>), u16> },
    ThreadData { tid: u64, answer: Result<ThreadRuntimeSnapshot, u16> },
    ReadWord { addr: u64, answer: Result<(usize, u64), u16> },
    ResumeProcess { answer: Result<(), u16> },
    ResumeThread { tid: u64, answer: Result<(), u16> },
    Detach { answer: Result<(), u16> },
    Release { answer: Result<(), u16> },
}

/// The answer to a request for thread ids, with the buffer as the sequence
/// of what it holds.
pub open spec fn page_answer(r: Result<(usize, Vec<u64>), u16>) -> Result<(usize, Seq<u64>), u16> {
    match r {
        Ok((count, buffer)) => Ok((count, buffer@)),
        Err(code) => Err(code),
    }
}

/// A debug channel together with the trace of its use: every request that
/// was made through it, in order, each with its answer.
pub struct Traced<C: DebugChannel> {
    channel: C,
    log: Ghost<Seq<Event>>,
}

impl<C: DebugChannel> Traced<C> {
    /// The requests made so far, each with its answer.
    pub closed spec fn trace(&self) -> Seq<Event> {
        self.log@
    }

    /// The events that have come to the trace since it was `before`.
    pub open spec fn since(&self, before: Seq<Event>) -> Seq<Event> {
        self.trace().skip(before.len() as int)
    }

    /// Whether the trace is `before` with more events behind it, or none.
    pub open spec fn continues(&self, before: Seq<Event>) -> bool {
        self.trace() == before + self.since(before)
    }

    /// The channel that is under trace, as it now is.
    pub closed spec fn held(&self) -> C {
        self.channel
    }

    /// Takes `channel` under trace. Nothing was asked of it yet.
    pub fn new(channel: C) -> (t: Self)
        ensures
            t.trace() == Seq::<Event>::empty(),
            t.held() == channel,
    {
        Traced { channel, log: Ghost(Seq::empty()) }
    }

    /// Takes under trace a channel that the attach to the process `pid` has
    /// just given: that attach, and that it was granted, is the first event
    /// of the trace.
    pub(crate) fn attached(channel: C, pid: u64) -> (t: Self)
        ensures
            t.trace() == seq![Event::Attach { pid, answer: Ok(()) }],
            t.held() == channel,
    {
        let t = Traced {
            channel,
            log: Ghost(Seq::<Event>::empty().push(Event::Attach { pid, answer: Ok(()) })),
        };
        proof {
            assert(t.log@ =~= seq![Event::Attach { pid, answer: Ok(()) }]);
        }
        t
    }

    /// The channel that is under trace, to look at.
    pub fn channel(&self) -> (channel: &C)
        ensures
            *channel == self.held(),
    {
        &self.channel
    }

    /// Asks that the process be frozen.
    pub fn pause(&mut self) -> (r: Result<(), u16>)
        ensures
            final(self).trace() == old(self).trace().push(Event::Pause { answer: r }),
    {
        let r = self.channel.pause();
        proof {
            self.log@ = self.log@.push(Event::Pause { answer: r });
        }
        r
    }

    /// Asks for at most `capacity` thread ids from `start_tid` on.
    pub fn list_threads(&mut self, start_tid: u64, capacity: usize) -> (r: Result<
        (usize, Vec<u64>),
        u16,
    >)
        ensures
            final(self).trace() == old(self).trace().push(
                Event::ListThreads { start_tid, capacity, answer: page_answer(r) },
            ),
    {
        let r = self.channel.list_threads(start_tid, capacity);
        proof {
            self.log@ = self.log@.push(
                Event::ListThreads { start_tid, capacity, answer: page_answer(r) },
            );
        }
        r
    }

    /// Asks for the state of the thread `tid`.
    pub fn thread_data(&mut self, tid: u64) -> (r: Result<ThreadRuntimeSnapshot, u16>)
        ensures
            final(self).trace() == old(self).trace().push(Event::ThreadData { tid, answer: r }),
    {
        let r = self.channel.thread_data(tid);
        proof {
            self.log@ = self.log@.push(Event::ThreadData { tid, answer: r });
        }
        r
    }

    /// Asks for the word at `addr` in the memory of the process.
    pub fn read_word(&mut self, addr: u64) -> (r: Result<(usize, u64), u16>)
        ensures
            final(self).trace() == old(self).trace().push(Event::ReadWord { addr, answer: r }),
    {
        let r = self.channel.read_word(addr);
        proof {
            self.log@ = self.log@.push(Event::ReadWord { addr, answer: r });
        }
        r
    }

    /// Asks that the process no longer be held frozen.
    pub fn resume_process(&mut self) -> (r: Result<(), u16>)
        ensures
            final(self).trace() == old(self).trace().push(Event::ResumeProcess { answer: r }),
    {
        let r = self.channel.resume_process();
        proof {
            self.log@ = self.log@.push(Event::ResumeProcess { answer: r });
        }
        r
    }

    /// Asks that the thread `tid` run again.
    pub fn resume_thread(&mut self, tid: u64) -> (r: Result<(), u16>)
        ensures
            final(self).trace() == old(self).trace().push(Event::ResumeThread { tid, answer: r }),
    {
        let r = self.channel.resume_thread(tid);
        proof {
            self.log@ = self.log@.push(Event::ResumeThread { tid, answer: r });
        }
        r
    }

    /// Asks that the process be let go.
    pub fn detach(&mut self) -> (r: Result<(), u16>)
        ensures
            final(self).trace() == old(self).trace().push(Event::Detach { answer: r }),
    {
        let r = self.channel.detach();
        proof {
            self.log@ = self.log@.push(Event::Detach { answer: r });
        }
        r
    }

    /// Gives back the handle of the channel.
    pub fn release(&mut self) -> (r: Result<(), u16>)
        ensures
            final(self).trace() == old(self).trace().push(Event::Release { answer: r }),
    {
        let r = self.channel.release();
        proof {
            self.log@ = self.log@.push(Event::Release { answer: r });
        }
        r
    }
}

} // verus!
