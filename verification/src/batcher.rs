//! Dynamic batching: folding the jobs of one collection window into a batch
//! of the model's fixed size.

use crate::queue::{add_saturating, later, EventView, JobQueue, QueueEvent, QueueView};
use crate::tensor::{dims_product, nonzero_product, same_dims, shape_fits, Tensor, TensorView};
use crate::text::{dummy_id, has_dummy_prefix, is_dummy_form, lemma_dummy_id_form, make_dummy_id};
use crate::types::{all_zero, job_views, Batch, BatchView, Job, JobView};
use vstd::prelude::*;

verus! {

/// Why a list of jobs does not make a batch.
#[derive(Debug, Clone, Copy, PartialEq, Eq)]
pub enum BatchError {
    /// There is no job at all.
    NoJobs,
    /// There are more jobs than the model's batch size.
    TooManyJobs,
    /// The first job's tensor lacks a leading axis of length one.
    NotSingleSample,
    /// A job's tensor has another shape than the first job's.
    ShapeMismatch,
    /// The stacked shape is not representable.
    TooLarge,
}

/// All jobs have the tensor shape of the first.
pub open spec fn uniform_shapes(jobs: Seq<JobView>) -> bool {
    forall|i: int| 0 <= i < jobs.len() ==> (#[trigger] jobs[i]).tensor.dims == jobs[0].tensor.dims
}

/// The shape of the batch that `jobs` make: the batch size, then the axes of
/// one sample.
pub open spec fn batch_dims(spec_n: nat, jobs: Seq<JobView>) -> Seq<usize> {
    seq![spec_n as usize] + jobs[0].tensor.dims.skip(1)
}

/// The error that stands in the way of a batch, if any. The checks come in
/// the order of the variants of [`BatchError`].
pub open spec fn batch_failure(spec_n: nat, jobs: Seq<JobView>) -> Option<BatchError> {
    if jobs.len() == 0 {
        Some(BatchError::NoJobs)
    } else if jobs.len() > spec_n {
        Some(BatchError::TooManyJobs)
    } else if jobs[0].tensor.dims.len() == 0 || jobs[0].tensor.dims[0] != 1 {
        Some(BatchError::NotSingleSample)
    } else if !uniform_shapes(jobs) {
        Some(BatchError::ShapeMismatch)
    } else if !shape_fits(batch_dims(spec_n, jobs)) {
        Some(BatchError::TooLarge)
    } else {
        None
    }
}

/// The single slice of a tensor whose leading axis has length one is the
/// whole tensor.
pub proof fn lemma_single_row(t: TensorView)
    requires
        t.well_formed(),
        t.dims.len() >= 1,
        t.dims[0] == 1,
    ensures
        t.row(0) == t.elems,
        shape_fits(t.dims.skip(1)),
{
    assert(dims_product(t.dims) == 1 * dims_product(t.dims.skip(1)));
    assert(nonzero_product(t.dims) == 1 * nonzero_product(t.dims.skip(1)));
    assert(t.row(0) =~= t.elems);
}

/// Folds the jobs of one collection window into a batch of exactly `spec_n`
/// samples: the jobs in their order, then zero samples under the ids
/// `DUMMY-<k>`, where `k` is the 1-based position in the batch.
pub fn build_batch(spec_n: usize, jobs: &Vec<Job>) -> (r: Result<Batch, BatchError>)
    ensures
        match r {
            Ok(b) => {
                &&& batch_failure(spec_n as nat, job_views(jobs@)) is None
                &&& b@.sized(spec_n as nat)
                &&& b@.padded()
                &&& b@.carries(job_views(jobs@))
                &&& b@.tensor.dims == batch_dims(spec_n as nat, job_views(jobs@))
            },
            Err(e) => batch_failure(spec_n as nat, job_views(jobs@)) == Some(e),
        },
{
    let n = jobs.len();
    if n == 0 {
        return Err(BatchError::NoJobs);
    }
    if n > spec_n {
        return Err(BatchError::TooManyJobs);
    }
    let first = &jobs[0].tensor;
    if first.ndim() == 0 || first.shape()[0] != 1 {
        return Err(BatchError::NotSingleSample);
    }
    let mut ids: Vec<String> = Vec::new();
    let mut parts: Vec<Tensor> = Vec::new();
    let mut i: usize = 0;
    while i < n
        invariant
            i <= n,
            n == jobs.len(),
            1 <= n <= spec_n,
            first == &jobs[0].tensor,
            first@.dims.len() >= 1,
            first@.dims[0] == 1,
            ids.len() == i,
            parts.len() == i,
            forall|k: int| 0 <= k < i ==> (#[trigger] jobs[k]).tensor@.dims == first@.dims,
            forall|k: int| 0 <= k < i ==> (#[trigger] ids[k])@ == jobs[k].id@,
            forall|k: int|
                0 <= k < i ==> {
                    &&& (#[trigger] parts[k])@.dims == first@.dims.skip(1)
                    &&& parts[k]@.elems == jobs[k].tensor@.elems
                },
        decreases n - i,
    {
        let job = &jobs[i];
        let tensor = &job.tensor;
        if !same_dims(tensor.shape(), first.shape()) {
            proof {
                assert(job_views(jobs@)[i as int].tensor.dims != job_views(jobs@)[0].tensor.dims);
            }
            return Err(BatchError::ShapeMismatch);
        }
        proof {
            use_type_invariant(tensor);
            lemma_single_row(tensor@);
        }
        match tensor.index_axis0(0) {
            Some(sample) => {
                ids.push(job.id.clone());
                parts.push(sample);
            },
            None => {
                return Err(BatchError::ShapeMismatch);
            },
        }
        i = i + 1;
    }
    proof {
        use_type_invariant(first);
        lemma_single_row(first@);
        assert(uniform_shapes(job_views(jobs@)));
    }
    while parts.len() < spec_n
        invariant
            n <= parts.len() <= spec_n,
            n == jobs.len(),
            n >= 1,
            first == &jobs[0].tensor,
            first@.dims.len() >= 1,
            shape_fits(first@.dims.skip(1)),
            ids.len() == parts.len(),
            forall|k: int| 0 <= k < n ==> (#[trigger] ids[k])@ == jobs[k].id@,
            forall|k: int| 0 <= k < parts.len() ==> (#[trigger] parts[k])@.dims == first@.dims.skip(1),
            forall|k: int| 0 <= k < n ==> (#[trigger] parts[k])@.elems == jobs[k].tensor@.elems,
            forall|k: int| n <= k < ids.len() ==> (#[trigger] ids[k])@ == dummy_id((k + 1) as nat),
            forall|k: int| n <= k < parts.len() ==> (#[trigger] parts[k])@.all_zero(),
        decreases spec_n - parts.len(),
    {
        let sample_shape = parts[0].shape().clone();
        assert(sample_shape@ =~= first@.dims.skip(1));
        match Tensor::zeros(sample_shape) {
            Ok(zero) => {
                parts.push(zero);
                ids.push(make_dummy_id(parts.len()));
            },
            Err(_) => {
                return Err(BatchError::TooLarge);
            },
        }
    }
    match Tensor::stack(&parts) {
        None => Err(BatchError::TooLarge),
        Some(tensor) => {
            proof {
                use_type_invariant(&tensor);
                assert(tensor@.dims =~= batch_dims(spec_n as nat, job_views(jobs@)));
                assert forall|k: int| n <= k < ids.len() implies all_zero(
                    tensor@.row(k),
                ) by {
                    assert(tensor@.row(k) == parts[k]@.elems);
                }
            }
            Ok(Batch { ids, tensor, actual_len: n })
        },
    }
}

/// What the caller of a [`Collector`] does next.
#[derive(Debug, Clone, Copy, PartialEq, Eq)]
pub enum Action {
    /// Wait, without a time limit, for the first job or for the queue to
    /// close.
    AwaitFirst,
    /// The first job is latched: start the deadline timer at the latency
    /// budget from now, then race it against the next receive. Where both are
    /// ready, the deadline wins.
    StartTimer,
    /// Go on racing the running timer against the next receive.
    AwaitNext,
    /// Stop collecting and make a batch of the collected jobs.
    Emit,
    /// The queue closed before any job came: the stream has ended.
    End,
}

/// The mathematical value of a [`Collector`].
pub struct CollectorView {
    /// The largest number of real jobs in one batch.
    pub max_batch: nat,
    /// The jobs collected so far, in arrival order.
    pub jobs: Seq<JobView>,
    /// Whether collecting has stopped.
    pub done: bool,
}

impl CollectorView {
    /// The state after an event, and what the caller does next.
    pub open spec fn step(self, event: EventView) -> (CollectorView, Action) {
        match event {
            EventView::Job(job) => {
                let jobs = self.jobs.push(job);
                if jobs.len() >= self.max_batch {
                    (CollectorView { jobs, done: true, ..self }, Action::Emit)
                } else if self.jobs.len() == 0 {
                    (CollectorView { jobs, ..self }, Action::StartTimer)
                } else {
                    (CollectorView { jobs, ..self }, Action::AwaitNext)
                }
            },
            EventView::Deadline => {
                if self.jobs.len() == 0 {
                    (self, Action::AwaitFirst)
                } else {
                    (CollectorView { done: true, ..self }, Action::Emit)
                }
            },
            EventView::Closed => {
                if self.jobs.len() == 0 {
                    (CollectorView { done: true, ..self }, Action::End)
                } else {
                    (CollectorView { done: true, ..self }, Action::Emit)
                }
            },
        }
    }
}

/// The decisions of one collection window, as a state machine: the caller
/// waits on its queue and its timer, and reports each event to `step`.
pub struct Collector {
    max_batch: usize,
    jobs: Vec<Job>,
    done: bool,
}

impl View for Collector {
    type V = CollectorView;

    closed spec fn view(&self) -> CollectorView {
        CollectorView {
            max_batch: self.max_batch as nat,
            jobs: job_views(self.jobs@),
            done: self.done,
        }
    }
}

impl Collector {
    /// A collector that has seen no job yet.
    pub fn new(max_batch: usize) -> (r: Collector)
        ensures
            r@ == (CollectorView { max_batch: max_batch as nat, jobs: Seq::empty(), done: false }),
    {
        let r = Collector { max_batch, jobs: Vec::new(), done: false };
        assert(r@.jobs =~= Seq::empty());
        r
    }

    /// Whether collecting has stopped.
    pub fn is_done(&self) -> (r: bool)
        ensures
            r == self@.done,
    {
        self.done
    }

    /// The number of jobs collected so far.
    pub fn len(&self) -> (r: usize)
        ensures
            r == self@.jobs.len(),
    {
        self.jobs.len()
    }

    /// Takes note of an event and says what to do next. Once collecting has
    /// stopped, no further event may be reported: a job would be lost.
    pub fn step(&mut self, event: QueueEvent) -> (action: Action)
        requires
            !old(self)@.done,
        ensures
            (final(self)@, action) == old(self)@.step(event@),
    {
        let ghost before = self@;
        match event {
            QueueEvent::Job(job) => {
                let first = self.jobs.len() == 0;
                let ghost value = job@;
                self.jobs.push(job);
                proof {
                    assert(self@.jobs =~= before.jobs.push(value));
                }
                if self.jobs.len() >= self.max_batch {
                    self.done = true;
                    Action::Emit
                } else if first {
                    Action::StartTimer
                } else {
                    Action::AwaitNext
                }
            },
            QueueEvent::Deadline => {
                if self.jobs.len() == 0 {
                    Action::AwaitFirst
                } else {
                    self.done = true;
                    Action::Emit
                }
            },
            QueueEvent::Closed => {
                self.done = true;
                if self.jobs.len() == 0 {
                    Action::End
                } else {
                    Action::Emit
                }
            },
        }
    }

    /// The collected jobs, in arrival order.
    pub fn into_jobs(self) -> (r: Vec<Job>)
        ensures
            job_views(r@) == self@.jobs,
    {
        self.jobs
    }
}

/// The jobs of one collection window and the queue that is left.
pub struct Window {
    pub queue: QueueView,
    pub jobs: Seq<JobView>,
}

/// The race of the deadline against the queue while the batch has `room` for
/// more jobs: each job that comes before the deadline is taken; the deadline
/// or the closing of the empty queue ends the window.
pub open spec fn gather(queue: QueueView, deadline: u64, room: nat) -> Window
    decreases room,
{
    if room == 0 {
        Window { queue, jobs: Seq::empty() }
    } else {
        let (next, event) = queue.recv_before(deadline);
        match event {
            EventView::Job(job) => {
                let rest = gather(next, deadline, (room - 1) as nat);
                Window { queue: rest.queue, jobs: seq![job] + rest.jobs }
            },
            _ => Window { queue: next, jobs: Seq::empty() },
        }
    }
}

/// One collection window: a blocking receive of the first job, then the race
/// of [`gather`] with the deadline at `max_wait_ms` after the first job was
/// received and room for `max_batch - 1` more jobs. No jobs means that the
/// stream has ended.
pub open spec fn collect(queue: QueueView, max_batch: nat, max_wait_ms: u64) -> Window {
    let (after_first, first) = queue.recv();
    match first {
        None => Window { queue: after_first, jobs: Seq::empty() },
        Some(job) => {
            let room: nat = if max_batch >= 1 {
                (max_batch - 1) as nat
            } else {
                0
            };
            let rest = gather(after_first, add_saturating(after_first.now, max_wait_ms), room);
            Window { queue: rest.queue, jobs: seq![job] + rest.jobs }
        },
    }
}

/// Collects the jobs of one window from the queue and folds them into a batch
/// of exactly `spec_n` samples. The jobs of the window leave the queue also
/// where they do not make a batch.
///
/// `Ok(None)` says that nothing is pending, and comes exactly then. On a
/// closed queue that is the end of the stream. On a queue that was never
/// closed it is all that a replay can say, for it cannot wait; the queue
/// stays open.
pub fn collect_batch(spec_n: usize, rx: &mut JobQueue, max_batch: usize, max_wait_ms: u64) -> (r:
    Result<Option<Batch>, BatchError>)
    ensures
        final(rx)@ == collect(old(rx)@, max_batch as nat, max_wait_ms).queue,
        final(rx)@.closed == old(rx)@.closed,
        (r is Ok && r->Ok_0 is None) <==> old(rx)@.pending.len() == 0,
        ({
            let jobs = collect(old(rx)@, max_batch as nat, max_wait_ms).jobs;
            match r {
                Ok(None) => jobs.len() == 0,
                Ok(Some(b)) => {
                    &&& jobs.len() > 0
                    &&& batch_failure(spec_n as nat, jobs) is None
                    &&& b@.sized(spec_n as nat)
                    &&& b@.padded()
                    &&& b@.carries(jobs)
                    &&& b@.tensor.dims == batch_dims(spec_n as nat, jobs)
                },
                Err(e) => jobs.len() > 0 && batch_failure(spec_n as nat, jobs) == Some(e),
            }
        }),
{
    let ghost start = rx@;
    let ghost target = collect(start, max_batch as nat, max_wait_ms);
    proof {
        lemma_collect_takes_front(start, max_batch as nat, max_wait_ms);
    }
    let mut collector = Collector::new(max_batch);
    let first = rx.recv();
    let deadline = rx.now().saturating_add(max_wait_ms);
    let mut action = match first {
        Some(job) => collector.step(QueueEvent::Job(job)),
        None => collector.step(QueueEvent::Closed),
    };
    proof {
        if collector@.jobs.len() > 0 {
            assert(collector@.jobs =~= seq![start.recv().1.unwrap()]);
            if collector@.done {
                assert(max_batch <= 1);
                assert(target.jobs =~= collector@.jobs);
            } else {
                assert(target.jobs =~= collector@.jobs + gather(
                    rx@,
                    deadline,
                    (max_batch - 1) as nat,
                ).jobs);
            }
        }
    }
    while !collector.is_done()
        invariant
            collector@.max_batch == max_batch,
            collector@.done ==> rx@ == target.queue && collector@.jobs == target.jobs,
            collector@.done ==> (action == Action::End <==> collector@.jobs.len() == 0),
            !collector@.done ==> {
                &&& 1 <= collector@.jobs.len() < max_batch
                &&& target.jobs == collector@.jobs + gather(
                    rx@,
                    deadline,
                    (max_batch - collector@.jobs.len()) as nat,
                ).jobs
                &&& target.queue == gather(
                    rx@,
                    deadline,
                    (max_batch - collector@.jobs.len()) as nat,
                ).queue
            },
        decreases (if collector@.done { 0int } else { 1 + max_batch - collector@.jobs.len() }),
    {
        let ghost queue = rx@;
        let ghost held = collector@;
        let event = rx.recv_before(deadline);
        action = collector.step(event);
        proof {
            let room = (max_batch - held.jobs.len()) as nat;
            let whole = gather(queue, deadline, room);
            match event@ {
                EventView::Job(job) => {
                    let rest = gather(rx@, deadline, (room - 1) as nat);
                    assert(whole.jobs == seq![job] + rest.jobs);
                    assert(held.jobs + (seq![job] + rest.jobs) =~= held.jobs.push(job)
                        + rest.jobs);
                    if collector@.done {
                        assert(room == 1);
                        assert(rest.jobs =~= Seq::<JobView>::empty());
                        assert(collector@.jobs + rest.jobs =~= collector@.jobs);
                    }
                },
                _ => {
                    assert(whole.jobs =~= Seq::<JobView>::empty());
                    assert(held.jobs + whole.jobs =~= held.jobs);
                },
            }
        }
    }
    match action {
        Action::End => Ok(None),
        _ => {
            let jobs = collector.into_jobs();
            match build_batch(spec_n, &jobs) {
                Ok(batch) => Ok(Some(batch)),
                Err(e) => Err(e),
            }
        },
    }
}

/// The jobs of the `n` oldest pending arrivals of a queue.
pub open spec fn front_jobs(queue: QueueView, n: nat) -> Seq<JobView> {
    Seq::new(n, |i: int| queue.pending[i].job)
}

/// The race takes the oldest pending jobs, in their order, at most `room` of
/// them, and leaves the others in the queue: no job is dropped, duplicated
/// or reordered.
pub proof fn lemma_gather_takes_front(queue: QueueView, deadline: u64, room: nat)
    ensures
        ({
            let w = gather(queue, deadline, room);
            &&& w.jobs.len() <= room
            &&& w.jobs.len() <= queue.pending.len()
            &&& w.jobs == front_jobs(queue, w.jobs.len())
            &&& w.queue.pending == queue.pending.skip(w.jobs.len() as int)
            &&& w.queue.clock == queue.clock
            &&& w.queue.closed == queue.closed
            &&& w.queue.now >= queue.now
        }),
    decreases room,
{
    let w = gather(queue, deadline, room);
    if room == 0 {
        assert(w.jobs =~= front_jobs(queue, 0));
        assert(w.queue.pending =~= queue.pending.skip(0));
    } else {
        let (next, event) = queue.recv_before(deadline);
        match event {
            EventView::Job(job) => {
                lemma_gather_takes_front(next, deadline, (room - 1) as nat);
                let rest = gather(next, deadline, (room - 1) as nat);
                assert(w.jobs == seq![job] + rest.jobs);
                assert(w.jobs =~= front_jobs(queue, w.jobs.len()));
                assert(w.queue.pending =~= queue.pending.skip(w.jobs.len() as int));
            },
            _ => {
                assert(w.jobs =~= front_jobs(queue, 0));
                assert(w.queue.pending =~= queue.pending.skip(0));
            },
        }
    }
}

/// A collection window takes the oldest pending jobs, in their order, and
/// leaves the others in the queue. It takes at least one job where one is
/// pending, and at most `max_batch` (one, where `max_batch` is zero).
pub proof fn lemma_collect_takes_front(queue: QueueView, max_batch: nat, max_wait_ms: u64)
    ensures
        ({
            let w = collect(queue, max_batch, max_wait_ms);
            &&& (w.jobs.len() == 0 <==> queue.pending.len() == 0)
            &&& w.jobs.len() <= queue.pending.len()
            &&& (w.jobs.len() <= max_batch || w.jobs.len() == 1)
            &&& w.jobs == front_jobs(queue, w.jobs.len())
            &&& w.queue.pending == queue.pending.skip(w.jobs.len() as int)
            &&& w.queue.clock == queue.clock
            &&& w.queue.closed == queue.closed
            &&& w.queue.now >= queue.now
        }),
{
    let w = collect(queue, max_batch, max_wait_ms);
    let (after_first, first) = queue.recv();
    match first {
        None => {
            assert(w.jobs =~= front_jobs(queue, 0));
            assert(w.queue.pending =~= queue.pending.skip(0));
        },
        Some(job) => {
            let room: nat = if max_batch >= 1 {
                (max_batch - 1) as nat
            } else {
                0
            };
            let deadline = add_saturating(after_first.now, max_wait_ms);
            lemma_gather_takes_front(after_first, deadline, room);
            let rest = gather(after_first, deadline, room);
            assert(w.jobs == seq![job] + rest.jobs);
            assert(w.jobs =~= front_jobs(queue, w.jobs.len()));
            assert(w.queue.pending =~= queue.pending.skip(w.jobs.len() as int));
        },
    }
}

/// Without a latency budget a window holds the first job alone, however
/// many are pending.
pub proof fn lemma_zero_wait(queue: QueueView, max_batch: nat)
    requires
        queue.pending.len() >= 1,
    ensures
        collect(queue, max_batch, 0).jobs == seq![queue.pending[0].job],
        collect(queue, max_batch, 0).queue.pending == queue.pending.skip(1),
{
    let (after_first, first) = queue.recv();
    let room: nat = if max_batch >= 1 {
        (max_batch - 1) as nat
    } else {
        0
    };
    let rest = gather(after_first, after_first.now, room);
    assert(rest.jobs =~= Seq::<JobView>::empty());
    assert(seq![queue.pending[0].job] + rest.jobs =~= seq![queue.pending[0].job]);
}

/// Every pending job has already been sent at the consumer's time.
pub open spec fn burst(queue: QueueView) -> bool {
    forall|i: int| 0 <= i < queue.pending.len() ==> (#[trigger] queue.pending[i]).at <= queue.now
}

/// The smaller of two numbers.
pub open spec fn smaller(a: nat, b: nat) -> nat {
    if a <= b {
        a
    } else {
        b
    }
}

/// While the deadline is ahead, the race takes jobs that have already been
/// sent until the room or the jobs run out, and no time passes while jobs
/// are left.
pub proof fn lemma_gather_burst(queue: QueueView, deadline: u64, room: nat)
    requires
        burst(queue),
        queue.now < deadline,
    ensures
        ({
            let w = gather(queue, deadline, room);
            &&& w.jobs.len() == smaller(room, queue.pending.len())
            &&& w.queue.pending.len() == queue.pending.len() - w.jobs.len()
            &&& w.queue.pending.len() > 0 ==> w.queue.now == queue.now
            &&& burst(w.queue)
        }),
    decreases room,
{
    if room > 0 {
        let (next, event) = queue.recv_before(deadline);
        match event {
            EventView::Job(job) => {
                assert(queue.pending[0].at <= queue.now);
                assert(next.now == queue.now);
                assert forall|i: int| 0 <= i < next.pending.len() implies (
                #[trigger] next.pending[i]).at <= next.now by {
                    assert(next.pending[i] == queue.pending[i + 1]);
                }
                lemma_gather_burst(next, deadline, (room - 1) as nat);
            },
            _ => {
                if queue.pending.len() > 0 {
                    assert(queue.pending[0].at <= queue.now);
                }
            },
        }
    }
}

/// A window over jobs that have all been sent holds `max_batch` of them, or
/// all where there are fewer, provided there is a latency budget.
pub proof fn lemma_collect_burst(queue: QueueView, max_batch: nat, max_wait_ms: u64)
    requires
        burst(queue),
        max_batch >= 1,
        max_wait_ms > 0,
        queue.now < u64::MAX,
    ensures
        ({
            let w = collect(queue, max_batch, max_wait_ms);
            &&& w.jobs.len() == smaller(max_batch, queue.pending.len())
            &&& w.queue.pending.len() == queue.pending.len() - w.jobs.len()
            &&& w.queue.pending.len() > 0 ==> w.queue.now == queue.now
            &&& burst(w.queue)
        }),
{
    let (after_first, first) = queue.recv();
    if queue.pending.len() > 0 {
        assert(queue.pending[0].at <= queue.now);
        assert(after_first.now == queue.now);
        assert forall|i: int| 0 <= i < after_first.pending.len() implies (
        #[trigger] after_first.pending[i]).at <= after_first.now by {
            assert(after_first.pending[i] == queue.pending[i + 1]);
        }
        lemma_gather_burst(
            after_first,
            add_saturating(after_first.now, max_wait_ms),
            (max_batch - 1) as nat,
        );
    }
}

/// The sizes of the windows that follow one another on a queue, until it has
/// no job left; at most `fuel` of them.
pub open spec fn window_sizes(queue: QueueView, max_batch: nat, max_wait_ms: u64, fuel: nat) -> Seq<
    nat,
>
    decreases fuel,
{
    if fuel == 0 {
        Seq::empty()
    } else {
        let w = collect(queue, max_batch, max_wait_ms);
        if w.jobs.len() == 0 {
            Seq::empty()
        } else {
            seq![w.jobs.len()] + window_sizes(w.queue, max_batch, max_wait_ms, (fuel - 1) as nat)
        }
    }
}

/// `k` divided by `b`, rounded up.
pub open spec fn ceil_div(k: nat, b: nat) -> nat {
    ((k + b - 1) / (b as int)) as nat
}

/// A burst of `k` jobs, collected with a latency budget and `max_batch` jobs
/// to the window, makes `k / max_batch` windows, rounded up: all of them
/// full but the last, which holds what is left.
pub proof fn lemma_burst_windows(queue: QueueView, max_batch: nat, max_wait_ms: u64, fuel: nat)
    requires
        burst(queue),
        max_batch >= 1,
        max_wait_ms > 0,
        queue.now < u64::MAX,
        fuel >= queue.pending.len(),
    ensures
        ({
            let k = queue.pending.len();
            let sizes = window_sizes(queue, max_batch, max_wait_ms, fuel);
            &&& sizes.len() == ceil_div(k, max_batch)
            &&& forall|i: int| 0 <= i < sizes.len() - 1 ==> sizes[i] == max_batch
            &&& k > 0 ==> sizes.len() >= 1 && sizes.last() == k - (sizes.len() - 1) * max_batch
            &&& k > 0 ==> sizes.last() == (if k % max_batch == 0 {
                max_batch
            } else {
                k % max_batch
            })
        }),
    decreases fuel,
{
    let k = queue.pending.len();
    let b = max_batch;
    let sizes = window_sizes(queue, max_batch, max_wait_ms, fuel);
    lemma_collect_burst(queue, max_batch, max_wait_ms);
    if k == 0 {
        assert(ceil_div(0, b) == 0) by (nonlinear_arith)
            requires
                b >= 1,
        ;
        assert(sizes =~= Seq::<nat>::empty());
    } else {
        let w = collect(queue, max_batch, max_wait_ms);
        let rest = window_sizes(w.queue, max_batch, max_wait_ms, (fuel - 1) as nat);
        assert(sizes == seq![w.jobs.len()] + rest);
        if k <= b {
            assert(rest =~= Seq::<nat>::empty()) by {
                lemma_collect_takes_front(w.queue, max_batch, max_wait_ms);
            }
            assert(ceil_div(k, b) == 1) by (nonlinear_arith)
                requires
                    1 <= k <= b,
            ;
            assert(k % b == (if k == b {
                0
            } else {
                k as int
            })) by (nonlinear_arith)
                requires
                    1 <= k <= b,
            ;
            assert(sizes =~= seq![k]);
            assert(sizes.len() == 1);
            assert(sizes.last() == k);
        } else {
            lemma_burst_windows(w.queue, max_batch, max_wait_ms, (fuel - 1) as nat);
            assert(ceil_div(k, b) == ceil_div((k - b) as nat, b) + 1) by (nonlinear_arith)
                requires
                    k > b,
                    b >= 1,
            ;
            assert((k - b) % (b as int) == k % b) by (nonlinear_arith)
                requires
                    k > b,
                    b >= 1,
            ;
            assert(sizes.len() == rest.len() + 1);
            assert(rest.len() >= 1);
            assert(sizes.last() == rest.last());
            assert forall|i: int| 0 <= i < sizes.len() - 1 implies sizes[i] == max_batch by {
                if i > 0 {
                    assert(sizes[i] == rest[i - 1]);
                }
            }
            assert(k - (sizes.len() - 1) * b == (k - b) - (rest.len() - 1) * b) by (nonlinear_arith)
                requires
                    sizes.len() == rest.len() + 1,
            ;
            assert(sizes.len() == ceil_div(k, b));
            assert(sizes.last() == k - (sizes.len() - 1) * b);
            assert(sizes.last() == (if k % b == 0 {
                b
            } else {
                k % b
            }));
        }
    }
}

/// In a padded batch, the id at an index behind the real jobs reads `DUMMY-`
/// and then one or more digits, and the slice at that index is zero.
pub proof fn lemma_padding_form(batch: BatchView, i: int)
    requires
        batch.padded(),
        batch.actual_len <= i < batch.ids.len(),
    ensures
        is_dummy_form(batch.ids[i]),
        has_dummy_prefix(batch.ids[i]),
        all_zero(batch.tensor.row(i)),
{
    lemma_dummy_id_form((i + 1) as nat);
    assert(batch.ids[i] == dummy_id((i + 1) as nat));
}

/// The race never runs past the deadline: it ends with the clock at the
/// deadline at the latest, or where the clock stood if that was later.
pub proof fn lemma_gather_deadline(queue: QueueView, deadline: u64, room: nat)
    ensures
        queue.now <= gather(queue, deadline, room).queue.now <= later(queue.now, deadline),
    decreases room,
{
    if room > 0 {
        let (next, event) = queue.recv_before(deadline);
        match event {
            EventView::Job(_) => {
                lemma_gather_deadline(next, deadline, (room - 1) as nat);
            },
            _ => {},
        }
    }
}

/// Bounded latency: a window that holds a job ends no later than the
/// latency budget after its first job was received.
pub proof fn lemma_window_deadline(queue: QueueView, max_batch: nat, max_wait_ms: u64)
    requires
        queue.pending.len() >= 1,
    ensures
        ({
            let received = later(queue.now, queue.pending[0].at);
            let w = collect(queue, max_batch, max_wait_ms);
            received <= w.queue.now <= add_saturating(received, max_wait_ms)
        }),
{
    let (after_first, first) = queue.recv();
    let room: nat = if max_batch >= 1 {
        (max_batch - 1) as nat
    } else {
        0
    };
    lemma_gather_deadline(after_first, add_saturating(after_first.now, max_wait_ms), room);
}

} // verus!
