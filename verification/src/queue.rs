//! A single-consumer FIFO of jobs on a virtual clock.
//!
//! The producer side writes a schedule: it sends jobs, lets time pass and
//! closes the queue. The consumer side replays it: a receive moves the
//! consumer's clock forward to the moment at which the event happens. Time is
//! counted in milliseconds.

use crate::types::{Job, JobView};
use std::collections::VecDeque;
use vstd::prelude::*;

verus! {

/// What the consumer of a queue can learn while it collects a batch.
#[derive(Debug)]
pub enum QueueEvent {
    /// The next job of the queue.
    Job(Job),
    /// The deadline of the current batch has passed.
    Deadline,
    /// The queue is closed and empty.
    Closed,
}

/// The mathematical value of a [`QueueEvent`].
pub enum EventView {
    Job(JobView),
    Deadline,
    Closed,
}

impl View for QueueEvent {
    type V = EventView;

    open spec fn view(&self) -> EventView {
        match self {
            QueueEvent::Job(job) => EventView::Job(job@),
            QueueEvent::Deadline => EventView::Deadline,
            QueueEvent::Closed => EventView::Closed,
        }
    }
}

/// A job and the time at which it was sent.
pub struct ArrivalView {
    pub at: u64,
    pub job: JobView,
}

/// The mathematical value of a [`JobQueue`].
pub struct QueueView {
    /// The jobs that were sent and not yet received, oldest first.
    pub pending: Seq<ArrivalView>,
    /// The consumer's clock.
    pub now: u64,
    /// The producer's clock; once the queue is closed, the time of closing.
    pub clock: u64,
    /// Whether the producer has closed the queue.
    pub closed: bool,
}

/// The later of two times.
pub open spec fn later(a: u64, b: u64) -> u64 {
    if a >= b {
        a
    } else {
        b
    }
}

/// `a + b`, or the largest time where that would overflow.
pub open spec fn add_saturating(a: u64, b: u64) -> u64 {
    if a + b > u64::MAX {
        u64::MAX
    } else {
        (a + b) as u64
    }
}

impl QueueView {
    /// A receive: the oldest pending job, at the time it was sent or now,
    /// whichever is later. Without a pending job the answer is `None`: at
    /// the time of closing where the queue is closed, and at once, with
    /// nothing changed, where it is still open.
    pub open spec fn recv(self) -> (QueueView, Option<JobView>) {
        if self.pending.len() > 0 {
            (
                QueueView {
                    pending: self.pending.skip(1),
                    now: later(self.now, self.pending[0].at),
                    ..self
                },
                Some(self.pending[0].job),
            )
        } else if self.closed {
            (QueueView { now: later(self.now, self.clock), ..self }, None)
        } else {
            (self, None)
        }
    }

    /// A receive raced against a deadline. The deadline wins once the clock
    /// has reached it; a job that was sent before the deadline is received;
    /// so is the closing of an empty queue before the deadline; otherwise the
    /// clock moves to the deadline.
    pub open spec fn recv_before(self, deadline: u64) -> (QueueView, EventView) {
        if self.now >= deadline {
            (self, EventView::Deadline)
        } else if self.pending.len() > 0 {
            if self.pending[0].at < deadline {
                (
                    QueueView {
                        pending: self.pending.skip(1),
                        now: later(self.now, self.pending[0].at),
                        ..self
                    },
                    EventView::Job(self.pending[0].job),
                )
            } else {
                (QueueView { now: deadline, ..self }, EventView::Deadline)
            }
        } else if self.closed && self.clock < deadline {
            (QueueView { now: later(self.now, self.clock), ..self }, EventView::Closed)
        } else {
            (QueueView { now: deadline, ..self }, EventView::Deadline)
        }
    }

    /// A send at the producer's current time. A closed queue takes no job.
    pub open spec fn send(self, job: JobView) -> QueueView {
        if self.closed {
            self
        } else {
            QueueView { pending: self.pending.push(ArrivalView { at: self.clock, job }), ..self }
        }
    }

    /// The producer's clock moves forward to `at`, unless it is already
    /// there or the queue is closed.
    pub open spec fn advance_to(self, at: u64) -> QueueView {
        if self.closed {
            self
        } else {
            QueueView { clock: later(self.clock, at), ..self }
        }
    }

    /// The producer closes the queue at its current time.
    pub open spec fn close(self) -> QueueView {
        QueueView { closed: true, ..self }
    }

    /// The pending jobs, oldest first.
    pub open spec fn jobs(self) -> Seq<JobView> {
        Seq::new(self.pending.len(), |i: int| self.pending[i].job)
    }

    /// The ids of the pending jobs, oldest first.
    pub open spec fn pending_ids(self) -> Seq<Seq<char>> {
        Seq::new(self.pending.len(), |i: int| self.pending[i].job.id)
    }
}

struct Arrival {
    at_ms: u64,
    job: Job,
}

/// A single-consumer FIFO of jobs that records when each job was sent.
pub struct JobQueue {
    pending: VecDeque<Arrival>,
    now_ms: u64,
    clock_ms: u64,
    closed: bool,
}

impl View for JobQueue {
    type V = QueueView;

    closed spec fn view(&self) -> QueueView {
        QueueView {
            pending: Seq::new(
                self.pending@.len(),
                |i: int| ArrivalView { at: self.pending@[i].at_ms, job: self.pending@[i].job@ },
            ),
            now: self.now_ms,
            clock: self.clock_ms,
            closed: self.closed,
        }
    }
}

impl JobQueue {
    /// An open, empty queue; both clocks stand at zero.
    pub fn new() -> (r: JobQueue)
        ensures
            r@.pending.len() == 0,
            r@.now == 0,
            r@.clock == 0,
            !r@.closed,
    {
        JobQueue { pending: VecDeque::new(), now_ms: 0, clock_ms: 0, closed: false }
    }

    /// Sends a job at the producer's current time. A closed queue takes no
    /// job and hands it back.
    pub fn send(&mut self, job: Job) -> (r: Result<(), Job>)
        ensures
            final(self)@ == old(self)@.send(job@),
            old(self)@.closed ==> r is Err && r->Err_0@ == job@,
            !old(self)@.closed ==> r is Ok,
    {
        let ghost before = self@;
        if self.closed {
            proof {
                assert(self@.pending =~= before.pending);
            }
            return Err(job);
        }
        let ghost value = job@;
        self.pending.push_back(Arrival { at_ms: self.clock_ms, job });
        proof {
            assert(self@.pending =~= before.pending.push(
                ArrivalView { at: before.clock, job: value },
            ));
        }
        Ok(())
    }

    /// Lets `ms` milliseconds pass on the producer's side. The clock of a
    /// closed queue stands still.
    pub fn pause(&mut self, ms: u64)
        ensures
            final(self)@ == (QueueView {
                clock: if old(self)@.closed {
                    old(self)@.clock
                } else {
                    add_saturating(old(self)@.clock, ms)
                },
                ..old(self)@
            }),
    {
        if !self.closed {
            self.clock_ms = self.clock_ms.saturating_add(ms);
        }
        proof {
            assert(self@.pending =~= old(self)@.pending);
        }
    }

    /// Moves the producer's clock forward to `at_ms`, unless it is already
    /// there. The clock of a closed queue stands still.
    pub fn advance_to(&mut self, at_ms: u64)
        ensures
            final(self)@ == old(self)@.advance_to(at_ms),
    {
        if !self.closed && at_ms > self.clock_ms {
            self.clock_ms = at_ms;
        }
        proof {
            assert(self@.pending =~= old(self)@.pending);
        }
    }

    /// Closes the queue at the producer's current time. Pending jobs can
    /// still be received.
    pub fn close(&mut self)
        ensures
            final(self)@ == old(self)@.close(),
    {
        self.closed = true;
        proof {
            assert(self@.pending =~= old(self)@.pending);
        }
    }

    /// The consumer's clock.
    pub fn now(&self) -> (r: u64)
        ensures
            r == self@.now,
    {
        self.now_ms
    }

    /// The number of jobs that were sent and not yet received.
    pub fn len(&self) -> (r: usize)
        ensures
            r == self@.pending.len(),
    {
        self.pending.len()
    }

    /// Whether the producer has closed the queue.
    pub fn is_closed(&self) -> (r: bool)
        ensures
            r == self@.closed,
    {
        self.closed
    }

    /// A receive; see [`QueueView::recv`]. `None` says that nothing is
    /// pending. On a closed queue that is the end of the stream. On a queue
    /// that was never closed it is all that a replay can say, for it cannot
    /// wait: the queue stays open and may be sent to again.
    pub fn recv(&mut self) -> (r: Option<Job>)
        ensures
            r is None <==> old(self)@.pending.len() == 0,
            final(self)@ == old(self)@.recv().0,
            match r {
                Some(job) => old(self)@.recv().1 == Some(job@),
                None => old(self)@.recv().1 is None,
            },
    {
        let ghost before = self@;
        match self.pending.pop_front() {
            Some(arrival) => {
                if arrival.at_ms > self.now_ms {
                    self.now_ms = arrival.at_ms;
                }
                proof {
                    assert(self@.pending =~= before.pending.skip(1));
                    assert(before.pending[0].job == arrival.job@);
                }
                Some(arrival.job)
            },
            None => {
                if self.closed && self.clock_ms > self.now_ms {
                    self.now_ms = self.clock_ms;
                }
                proof {
                    assert(self@.pending =~= before.pending);
                }
                None
            },
        }
    }

    /// A receive raced against a deadline; see [`QueueView::recv_before`].
    pub fn recv_before(&mut self, deadline_ms: u64) -> (r: QueueEvent)
        ensures
            final(self)@ == old(self)@.recv_before(deadline_ms).0,
            r@ == old(self)@.recv_before(deadline_ms).1,
    {
        let ghost before = self@;
        if self.now_ms >= deadline_ms {
            return QueueEvent::Deadline;
        }
        if self.pending.len() > 0 {
            if self.pending[0].at_ms < deadline_ms {
                match self.pending.pop_front() {
                    Some(arrival) => {
                        if arrival.at_ms > self.now_ms {
                            self.now_ms = arrival.at_ms;
                        }
                        proof {
                            assert(self@.pending =~= before.pending.skip(1));
                            assert(before.pending[0].job == arrival.job@);
                        }
                        return QueueEvent::Job(arrival.job);
                    },
                    None => {
                        return QueueEvent::Deadline;
                    },
                }
            }
            self.now_ms = deadline_ms;
            proof {
                assert(self@.pending =~= before.pending);
            }
            return QueueEvent::Deadline;
        }
        if self.closed && self.clock_ms < deadline_ms {
            if self.clock_ms > self.now_ms {
                self.now_ms = self.clock_ms;
            }
            proof {
                assert(self@.pending =~= before.pending);
            }
            return QueueEvent::Closed;
        }
        self.now_ms = deadline_ms;
        proof {
            assert(self@.pending =~= before.pending);
        }
        QueueEvent::Deadline
    }
}

} // verus!
