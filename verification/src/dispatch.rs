//! The dispatcher: one producer-facing queue fanned out, round-robin, to one
//! queue per worker.

use crate::queue::{JobQueue, QueueView};
use crate::types::JobView;
use vstd::prelude::*;

verus! {

/// The capacity of the producer-facing queue.
pub const MAIN_QUEUE_CAPACITY: usize = 1024;

/// The capacity of each worker's queue.
pub const WORKER_QUEUE_CAPACITY: usize = 512;

/// `counter + 1`, wrapping to zero behind the largest value.
pub open spec fn next_counter(counter: usize) -> usize {
    if counter == usize::MAX {
        0
    } else {
        (counter + 1) as usize
    }
}

/// The mathematical value of a [`Dispatcher`].
pub struct DispatcherView {
    /// The number of workers; at least one.
    pub workers: nat,
    /// The number of jobs routed so far, wrapping on overflow.
    pub counter: usize,
}

/// The round-robin choice of a worker for each job.
pub struct Dispatcher {
    workers: usize,
    counter: usize,
}

impl View for Dispatcher {
    type V = DispatcherView;

    closed spec fn view(&self) -> DispatcherView {
        DispatcherView { workers: self.workers as nat, counter: self.counter }
    }
}

impl Dispatcher {
    #[verifier::type_invariant]
    spec fn inv(self) -> bool {
        self.workers >= 1
    }

    /// A dispatcher for the given number of workers, which must not be zero.
    pub fn new(workers: usize) -> (r: Option<Dispatcher>)
        ensures
            r is Some <==> workers >= 1,
            r is Some ==> r.unwrap()@ == (DispatcherView { workers: workers as nat, counter: 0 }),
    {
        if workers == 0 {
            None
        } else {
            Some(Dispatcher { workers, counter: 0 })
        }
    }

    /// The number of workers.
    pub fn workers(&self) -> (r: usize)
        ensures
            r == self@.workers,
            r >= 1,
    {
        proof {
            use_type_invariant(self);
        }
        self.workers
    }

    /// The worker that the next job goes to: the counter modulo the number
    /// of workers. The counter then moves on.
    pub fn route(&mut self) -> (r: usize)
        ensures
            r == old(self)@.counter as int % old(self)@.workers as int,
            r < old(self)@.workers,
            final(self)@ == (DispatcherView {
                counter: next_counter(old(self)@.counter),
                ..old(self)@
            }),
    {
        proof {
            use_type_invariant(&*self);
        }
        let r = self.counter % self.workers;
        self.counter = self.counter.wrapping_add(1);
        r
    }
}

/// The state of the fan-out: the producer-facing queue, the workers' queues
/// and the job counter.
pub struct FanOut {
    pub main: QueueView,
    pub workers: Seq<QueueView>,
    pub counter: usize,
}

/// The dispatcher's run, for at least one worker. Each job of the main
/// queue, as it is received, is sent on to the worker queue that the counter
/// selects, at the time of its receipt. When the main queue has nothing
/// more, every worker queue is closed, at the time at which the main queue
/// ended.
pub open spec fn fan_out(state: FanOut) -> FanOut
    decreases state.main.pending.len(),
{
    let (main, first) = state.main.recv();
    match first {
        Some(job) => {
            let w = state.counter as int % state.workers.len() as int;
            let target = state.workers[w].advance_to(main.now).send(job);
            fan_out(
                FanOut {
                    main,
                    workers: state.workers.update(w, target),
                    counter: next_counter(state.counter),
                },
            )
        },
        None => FanOut {
            main,
            workers: Seq::new(
                state.workers.len(),
                |w: int| state.workers[w].advance_to(main.now).close(),
            ),
            counter: state.counter,
        },
    }
}

/// The values of a list of queues, in order.
pub open spec fn queue_views(queues: Seq<JobQueue>) -> Seq<QueueView> {
    Seq::new(queues.len(), |i: int| queues[i]@)
}

/// Why nothing can be dispatched.
#[derive(Debug, Clone, Copy, PartialEq, Eq)]
pub enum DispatchError {
    /// There is no worker queue.
    NoWorkers,
}

/// Runs the dispatcher until the main queue has nothing more: forwards each
/// job round-robin, starting with the first worker, then closes every
/// worker queue. Gives the number of jobs forwarded.
pub fn dispatch(main: &mut JobQueue, workers: &mut Vec<JobQueue>) -> (r: Result<
    usize,
    DispatchError,
>)
    ensures
        old(workers).len() == 0 ==> r is Err && final(main)@ == old(main)@ && final(workers)@
            == old(workers)@,
        old(workers).len() > 0 ==> {
            let end = fan_out(
                FanOut { main: old(main)@, workers: queue_views(old(workers)@), counter: 0 },
            );
            &&& r == Ok::<usize, DispatchError>(old(main)@.pending.len() as usize)
            &&& final(main)@ == end.main
            &&& queue_views(final(workers)@) == end.workers
        },
{
    let n = workers.len();
    let mut dispatcher = match Dispatcher::new(n) {
        Some(d) => d,
        None => {
            return Err(DispatchError::NoWorkers);
        },
    };
    let total = main.len();
    let mut forwarded: usize = 0;
    let ghost end = fan_out(
        FanOut { main: main@, workers: queue_views(workers@), counter: 0 },
    );
    let mut done = false;
    while !done
        invariant
            done ==> main@.pending.len() == 0 && main@.recv().0 == main@,
            n == workers.len(),
            n >= 1,
            dispatcher@.workers == n,
            forwarded + main@.pending.len() == total,
            total == old(main)@.pending.len(),
            end == fan_out(
                FanOut {
                    main: main@,
                    workers: queue_views(workers@),
                    counter: dispatcher@.counter,
                },
            ),
        decreases main@.pending.len() + (if done { 0int } else { 1 }),
    {
        let ghost before = queue_views(workers@);
        match main.recv() {
            Some(job) => {
                let w = dispatcher.route();
                let now = main.now();
                let mut queue = workers.remove(w);
                queue.advance_to(now);
                let _ = queue.send(job);
                workers.insert(w, queue);
                forwarded = forwarded + 1;
                proof {
                    assert(queue_views(workers@) =~= before.update(w as int, queue@));
                }
            },
            None => {
                done = true;
            },
        }
    }
    let now = main.now();
    let ghost before = queue_views(workers@);
    let mut w: usize = 0;
    while w < n
        invariant
            w <= n,
            n == workers.len(),
            n == before.len(),
            now == main@.now,
            forall|k: int| 0 <= k < w ==> (#[trigger] workers[k])@ == before[k].advance_to(now).close(),
            forall|k: int| w <= k < n ==> (#[trigger] workers[k])@ == before[k],
        decreases n - w,
    {
        let mut queue = workers.remove(w);
        queue.advance_to(now);
        queue.close();
        workers.insert(w, queue);
        w = w + 1;
    }
    proof {
        assert(queue_views(workers@) =~= end.workers);
    }
    Ok(forwarded)
}

/// The jobs that worker `w` of `workers` is sent, of a list of jobs that is
/// dealt out one by one, the first to the worker that `counter` selects, the
/// next to the worker after it, and round again.
pub open spec fn share(jobs: Seq<JobView>, workers: nat, w: nat, counter: nat) -> Seq<JobView>
    decreases jobs.len(),
{
    if jobs.len() == 0 {
        Seq::empty()
    } else {
        let rest = share(jobs.skip(1), workers, w, counter + 1);
        if counter % workers == w {
            seq![jobs[0]] + rest
        } else {
            rest
        }
    }
}

/// Round-robin fan-out: after the dispatcher's run over open worker queues,
/// the main queue is empty, every worker queue is closed, and worker `w` has
/// gained, in their order, exactly the jobs whose position in the main queue
/// selects it.
pub proof fn lemma_round_robin(state: FanOut)
    requires
        state.workers.len() >= 1,
        forall|w: int| 0 <= w < state.workers.len() ==> !(#[trigger] state.workers[w]).closed,
        state.counter + state.main.pending.len() <= usize::MAX,
    ensures
        ({
            let end = fan_out(state);
            &&& end.workers.len() == state.workers.len()
            &&& end.main.pending.len() == 0
            &&& forall|w: int|
                0 <= w < state.workers.len() ==> {
                    &&& (#[trigger] end.workers[w]).closed
                    &&& end.workers[w].jobs() == state.workers[w].jobs() + share(
                        state.main.jobs(),
                        state.workers.len(),
                        w as nat,
                        state.counter as nat,
                    )
                }
        }),
    decreases state.main.pending.len(),
{
    let end = fan_out(state);
    let n = state.workers.len();
    let (main, first) = state.main.recv();
    match first {
        Some(job) => {
            let w0 = state.counter as int % n as int;
            let target = state.workers[w0].advance_to(main.now).send(job);
            let next = FanOut {
                main,
                workers: state.workers.update(w0, target),
                counter: next_counter(state.counter),
            };
            lemma_round_robin(next);
            assert(main.jobs() =~= state.main.jobs().skip(1));
            assert(state.main.jobs()[0] == job);
            assert forall|w: int| 0 <= w < n implies {
                &&& (#[trigger] end.workers[w]).closed
                &&& end.workers[w].jobs() == state.workers[w].jobs() + share(
                    state.main.jobs(),
                    n,
                    w as nat,
                    state.counter as nat,
                )
            } by {
                let rest = share(main.jobs(), n, w as nat, (state.counter + 1) as nat);
                assert(end.workers[w].jobs() == next.workers[w].jobs() + rest);
                if w == w0 {
                    assert(target.jobs() =~= state.workers[w].jobs().push(job));
                    assert(state.workers[w].jobs().push(job) + rest =~= state.workers[w].jobs() + (
                    seq![job] + rest));
                }
            }
        },
        None => {
            assert forall|w: int| 0 <= w < n implies {
                &&& (#[trigger] end.workers[w]).closed
                &&& end.workers[w].jobs() == state.workers[w].jobs() + share(
                    state.main.jobs(),
                    n,
                    w as nat,
                    state.counter as nat,
                )
            } by {
                assert(state.main.jobs() =~= Seq::<JobView>::empty());
                assert(end.workers[w].jobs() =~= state.workers[w].jobs());
                assert(state.workers[w].jobs() + Seq::<JobView>::empty() =~= state.workers[w].jobs());
            }
        },
    }
}

/// How many of the first `count` jobs go to worker `w` of `workers`, where
/// the first job goes to worker 0.
pub open spec fn turns(count: nat, workers: nat, w: nat) -> nat {
    if count <= w {
        0
    } else {
        ((count - w - 1) / (workers as int) + 1) as nat
    }
}

/// What one more job at the end of the list adds to a worker's share.
proof fn lemma_share_push(jobs: Seq<JobView>, last: JobView, workers: nat, w: nat, counter: nat)
    requires
        workers >= 1,
    ensures
        share(jobs.push(last), workers, w, counter) == (if (counter + jobs.len()) % workers == w {
            share(jobs, workers, w, counter).push(last)
        } else {
            share(jobs, workers, w, counter)
        }),
    decreases jobs.len(),
{
    let more = jobs.push(last);
    if jobs.len() == 0 {
        assert(more.skip(1) =~= Seq::<JobView>::empty());
        assert(share(more.skip(1), workers, w, counter + 1) =~= Seq::<JobView>::empty());
        assert(share(jobs, workers, w, counter) =~= Seq::<JobView>::empty());
        assert(seq![more[0]] + Seq::<JobView>::empty() =~= Seq::<JobView>::empty().push(last));
    } else {
        lemma_share_push(jobs.skip(1), last, workers, w, counter + 1);
        assert(more.skip(1) =~= jobs.skip(1).push(last));
        assert(more[0] == jobs[0]);
        let rest = share(jobs.skip(1), workers, w, counter + 1);
        assert(seq![jobs[0]] + rest.push(last) =~= (seq![jobs[0]] + rest).push(last));
    }
}

/// Arithmetic of the turns: the job at position `m` is the next of worker
/// `w` exactly where `m` leaves the remainder `w`, and it is then the job
/// at `w + turns * workers`.
proof fn lemma_turns_step(m: nat, workers: nat, w: nat)
    requires
        workers >= 1,
        w < workers,
    ensures
        m % workers == w ==> turns(m + 1, workers, w) == turns(m, workers, w) + 1 && m == w + turns(
            m,
            workers,
            w,
        ) * workers,
        m % workers != w ==> turns(m + 1, workers, w) == turns(m, workers, w),
{
    let n = workers as int;
    if m < w {
        assert(m % workers == m) by {
            vstd::arithmetic::div_mod::lemma_small_mod(m, workers);
        }
    } else {
        let d = (m - w) as int;
        vstd::arithmetic::div_mod::lemma_fundamental_div_mod(d, n);
        let q = d / n;
        let r = d % n;
        assert(0 <= r < n) by {
            vstd::arithmetic::div_mod::lemma_mod_bound(d, n);
        }
        assert(q >= 0) by {
            vstd::arithmetic::div_mod::lemma_div_pos_is_pos(d, n);
        }
        // m == q * n + (r + w), and the remainder of m follows from r + w
        assert(m == q * n + (r + w)) by (nonlinear_arith)
            requires
                m - w == n * q + r,
        ;
        if r == 0 {
            assert(m % workers == w) by {
                vstd::arithmetic::div_mod::lemma_fundamental_div_mod_converse(m as int, n, q, w as int);
            }
            if d > 0 {
                assert(q >= 1) by (nonlinear_arith)
                    requires
                        d == n * q,
                        d > 0,
                        n >= 1,
                ;
                assert(d - 1 == (q - 1) * n + (n - 1)) by (nonlinear_arith)
                    requires
                        d == n * q,
                ;
                vstd::arithmetic::div_mod::lemma_fundamental_div_mod_converse(
                    d - 1,
                    n,
                    q - 1,
                    n - 1,
                );
                assert((d - 1) / n == q - 1);
            }
            assert(turns(m, workers, w) == q);
            assert(turns(m + 1, workers, w) == q + 1);
            assert(w + q * n == m) by (nonlinear_arith)
                requires
                    m - w == n * q,
            ;
            assert(m == q * n + w);
        } else {
            if r + w < n {
                vstd::arithmetic::div_mod::lemma_fundamental_div_mod_converse(
                    m as int,
                    n,
                    q,
                    r + w,
                );
                assert(m % workers == r + w);
            } else {
                assert(m == (q + 1) * n + (r + w - n)) by (nonlinear_arith)
                    requires
                        m == q * n + (r + w),
                ;
                vstd::arithmetic::div_mod::lemma_fundamental_div_mod_converse(
                    m as int,
                    n,
                    q + 1,
                    r + w - n,
                );
                assert(m % workers == r + w - n);
            }
            assert(m % workers != w);
            assert(d - 1 == q * n + (r - 1)) by (nonlinear_arith)
                requires
                    d == n * q + r,
            ;
            vstd::arithmetic::div_mod::lemma_fundamental_div_mod_converse(d - 1, n, q, r - 1);
            assert((d - 1) / n == q);
            assert(turns(m, workers, w) == q + 1);
            assert(turns(m + 1, workers, w) == q + 1);
        }
    }
}

/// The position in the main queue of the job that is the `i`-th of worker
/// `w`, counting from zero.
pub open spec fn position(workers: nat, w: nat, i: int) -> int {
    w + i * workers
}

/// Round-robin, position by position: of jobs dealt out from the first
/// worker on, worker `w` is sent the jobs at the positions `w`,
/// `w + workers`, `w + 2 * workers` and so on, in this order.
pub proof fn lemma_share_positions(jobs: Seq<JobView>, workers: nat, w: nat)
    requires
        workers >= 1,
        w < workers,
    ensures
        share(jobs, workers, w, 0).len() == turns(jobs.len(), workers, w),
        forall|i: int|
            #![trigger position(workers, w, i)]
            0 <= i < turns(jobs.len(), workers, w) ==> {
                &&& 0 <= position(workers, w, i) < jobs.len()
                &&& share(jobs, workers, w, 0)[i] == jobs[position(workers, w, i)]
            },
    decreases jobs.len(),
{
    if jobs.len() == 0 {
    } else {
        let m = (jobs.len() - 1) as nat;
        let init = jobs.drop_last();
        let last = jobs.last();
        assert(jobs =~= init.push(last));
        lemma_share_positions(init, workers, w);
        lemma_share_push(init, last, workers, w, 0);
        lemma_turns_step(m, workers, w);
        let mine = share(jobs, workers, w, 0);
        let before = share(init, workers, w, 0);
        assert forall|i: int|
            #![trigger position(workers, w, i)]
            0 <= i < turns(jobs.len(), workers, w) implies {
            &&& 0 <= position(workers, w, i) < jobs.len()
            &&& mine[i] == jobs[position(workers, w, i)]
        } by {
            if i < before.len() {
                assert(before[i] == init[position(workers, w, i)]);
                assert(mine[i] == before[i]);
            } else {
                assert(i == turns(m, workers, w));
                assert(position(workers, w, i) == m);
            }
            assert(0 <= i * workers) by (nonlinear_arith)
                requires
                    i >= 0,
                    workers >= 1,
            ;
        }
    }
}

} // verus!
