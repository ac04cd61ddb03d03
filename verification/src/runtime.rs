//! The assembly of a runtime: which workers there are, how their outcomes
//! are joined, and the run of one dispatcher and its workers over a queue.

use crate::dispatch::{dispatch, fan_out, lemma_round_robin, queue_views, share, FanOut};
use crate::engine::{is_gpu, is_gpu_tag, Backend, Engine};
use crate::pipeline::{Pipeline, Postprocessor, Preprocessor};
use crate::queue::{ArrivalView, JobQueue, QueueView};
use crate::storage::redis_store::RedisStorage;
use crate::tensor::{same_dims, shape_fits, ShapeError, Tensor};
use crate::text::{
    decimal, push_decimal, same_text, single_precision, single_precision_tag, sink_key,
};
use crate::types::{Config, InputSpec, Job, JobView, ModelCfg};
use crate::engine::ModelIoView;
use crate::worker::{
    keyed, passes, record_ids, run_gpu_worker, stopped, ResultRecord, WorkerError,
};
use vstd::prelude::*;

verus! {

/// What is wrong with a configuration.
#[derive(Debug, Clone, Copy, PartialEq, Eq)]
pub enum ConfigError {
    /// The backend tag is none of `onnx`, `tensorrt`, `torch`, `tensorflow`.
    UnsupportedBackend,
    /// There are not as many input names as input shapes.
    InputArity,
    /// There are not as many output names as output shapes.
    OutputArity,
    /// Batch size, channels, height or width is zero.
    ZeroDimension,
    /// The element type tag is not `f32`.
    UnknownDtype,
    /// The first input shape is not batch size, channels, height, width.
    InputShape,
    /// The bound on the real jobs of a batch is zero.
    ZeroMaxBatch,
}

/// The first thing that is wrong with a configuration, if anything is. The
/// checks come in the order of the variants of [`ConfigError`].
pub open spec fn config_failure(cfg: Config) -> Option<ConfigError> {
    if Backend::of_tag(cfg.model.backend@) is None {
        Some(ConfigError::UnsupportedBackend)
    } else if cfg.model.input_names@.len() != cfg.model.input_shapes@.len() {
        Some(ConfigError::InputArity)
    } else if cfg.model.output_names@.len() != cfg.model.output_shapes@.len() {
        Some(ConfigError::OutputArity)
    } else if cfg.input.batch == 0 || cfg.input.channels == 0 || cfg.input.height == 0
        || cfg.input.width == 0 {
        Some(ConfigError::ZeroDimension)
    } else if cfg.input.dtype@ != single_precision_tag() {
        Some(ConfigError::UnknownDtype)
    } else if cfg.model.input_shapes@.len() == 0 || cfg.model.input_shapes@[0]@ != seq![
        cfg.input.batch,
        cfg.input.channels,
        cfg.input.height,
        cfg.input.width,
    ] {
        Some(ConfigError::InputShape)
    } else if cfg.queue.max_batch == 0 {
        Some(ConfigError::ZeroMaxBatch)
    } else {
        None
    }
}

/// Checks a configuration before anything is started.
pub fn check_config(cfg: &Config) -> (r: Result<(), ConfigError>)
    ensures
        match r {
            Ok(_) => config_failure(*cfg) is None,
            Err(e) => config_failure(*cfg) == Some(e),
        },
{
    if Backend::parse(cfg.model.backend.as_str()).is_none() {
        return Err(ConfigError::UnsupportedBackend);
    }
    if cfg.model.input_names.len() != cfg.model.input_shapes.len() {
        return Err(ConfigError::InputArity);
    }
    if cfg.model.output_names.len() != cfg.model.output_shapes.len() {
        return Err(ConfigError::OutputArity);
    }
    if cfg.input.batch == 0 || cfg.input.channels == 0 || cfg.input.height == 0 || cfg.input.width
        == 0 {
        return Err(ConfigError::ZeroDimension);
    }
    if !same_text(cfg.input.dtype.as_str(), single_precision()) {
        return Err(ConfigError::UnknownDtype);
    }
    if cfg.model.input_shapes.len() == 0 {
        return Err(ConfigError::InputShape);
    }
    let mut expected: Vec<usize> = Vec::new();
    expected.push(cfg.input.batch);
    expected.push(cfg.input.channels);
    expected.push(cfg.input.height);
    expected.push(cfg.input.width);
    assert(expected@ =~= seq![
        cfg.input.batch,
        cfg.input.channels,
        cfg.input.height,
        cfg.input.width,
    ]);
    if !same_dims(&cfg.model.input_shapes[0], &expected) {
        return Err(ConfigError::InputShape);
    }
    if cfg.queue.max_batch == 0 {
        return Err(ConfigError::ZeroMaxBatch);
    }
    Ok(())
}

/// The device of a worker for a configured device index: the largest index
/// stands for "no particular device".
pub open spec fn device_of(index: usize) -> Option<usize> {
    if index == usize::MAX {
        None
    } else {
        Some(index)
    }
}

/// The devices of the workers of a model section: one per configured device
/// index where the device reads `gpu` and indices are given; a single worker
/// on no particular device otherwise.
pub open spec fn devices_of(model: ModelCfg) -> Seq<Option<usize>> {
    if is_gpu_tag(model.device@) && model.gpu_ids@.len() > 0 {
        Seq::new(model.gpu_ids@.len(), |i: int| device_of(model.gpu_ids@[i]))
    } else {
        seq![None]
    }
}

/// The device of each worker that the runtime starts, in order.
pub fn worker_devices(model: &ModelCfg) -> (r: Vec<Option<usize>>)
    ensures
        r@ == devices_of(*model),
        r@.len() >= 1,
{
    let mut out: Vec<Option<usize>> = Vec::new();
    if is_gpu(model.device.as_str()) && model.gpu_ids.len() > 0 {
        let mut i: usize = 0;
        while i < model.gpu_ids.len()
            invariant
                i <= model.gpu_ids.len(),
                out.len() == i,
                forall|k: int| 0 <= k < i ==> out@[k] == device_of(model.gpu_ids@[k]),
            decreases model.gpu_ids.len() - i,
        {
            let index = model.gpu_ids[i];
            if index == usize::MAX {
                out.push(None);
            } else {
                out.push(Some(index));
            }
            i = i + 1;
        }
    } else {
        out.push(None);
    }
    assert(out@ =~= devices_of(*model));
    out
}

/// The index of the first failure among the outcomes, if there is one.
pub open spec fn first_failure<E>(outcomes: Seq<Result<(), E>>) -> Option<int>
    decreases outcomes.len(),
{
    if outcomes.len() == 0 {
        None
    } else if outcomes[0] is Err {
        Some(0)
    } else {
        match first_failure(outcomes.skip(1)) {
            Some(i) => Some(i + 1),
            None => None,
        }
    }
}

/// The first failure is a failure, and no outcome before it is one; where
/// there is none, every outcome is a success.
pub proof fn lemma_first_failure<E>(outcomes: Seq<Result<(), E>>)
    ensures
        match first_failure(outcomes) {
            Some(i) => {
                &&& 0 <= i < outcomes.len()
                &&& outcomes[i] is Err
                &&& forall|k: int| 0 <= k < i ==> outcomes[k] is Ok
            },
            None => forall|k: int| 0 <= k < outcomes.len() ==> outcomes[k] is Ok,
        },
    decreases outcomes.len(),
{
    if outcomes.len() > 0 && outcomes[0] is Ok {
        let rest = outcomes.skip(1);
        lemma_first_failure(rest);
        match first_failure(rest) {
            Some(j) => {
                assert forall|k: int| 0 <= k < j + 1 implies outcomes[k] is Ok by {
                    if k > 0 {
                        assert(outcomes[k] == rest[k - 1]);
                    }
                }
                assert(outcomes[j + 1] == rest[j]);
            },
            None => {
                assert forall|k: int| 0 <= k < outcomes.len() implies outcomes[k] is Ok by {
                    if k > 0 {
                        assert(outcomes[k] == rest[k - 1]);
                    }
                }
            },
        }
    }
}

/// Joins the outcomes of the workers, in worker order: the first error, or
/// success where no worker failed.
pub fn first_error<E>(outcomes: Vec<Result<(), E>>) -> (r: Result<(), E>)
    ensures
        match first_failure(outcomes@) {
            Some(i) => {
                &&& 0 <= i < outcomes@.len()
                &&& r == outcomes@[i]
                &&& r is Err
                &&& forall|k: int| 0 <= k < i ==> outcomes@[k] is Ok
            },
            None => r is Ok && forall|k: int| 0 <= k < outcomes@.len() ==> outcomes@[k] is Ok,
        },
{
    proof {
        lemma_first_failure(outcomes@);
    }
    let mut outcomes = outcomes;
    let ghost all = outcomes@;
    let mut i: usize = outcomes.len();
    let mut found: Result<(), E> = Ok(());
    while i > 0
        invariant
            i <= all.len(),
            outcomes@ == all.subrange(0, i as int),
            match first_failure(all.skip(i as int)) {
                Some(k) => 0 <= k < all.len() - i && found == all[i + k] && found is Err,
                None => found is Ok && forall|k: int| i <= k < all.len() ==> all[k] is Ok,
            },
        decreases i,
    {
        let last = outcomes.pop();
        i = i - 1;
        proof {
            assert(all.skip(i as int).skip(1) =~= all.skip(i + 1));
            assert(all.skip(i as int)[0] == all[i as int]);
            assert(outcomes@ =~= all.subrange(0, i as int));
        }
        match last {
            Some(Err(e)) => {
                found = Err(e);
            },
            _ => {},
        }
    }
    proof {
        assert(all.skip(0) =~= all);
    }
    found
}

/// The characters of `job-`.
pub open spec fn demo_prefix() -> Seq<char> {
    "job-"@
}

/// Sample jobs for a trial run: four batches' worth of zero samples of the
/// specified shape, under the ids `job-0`, `job-1` and so on. Fails where
/// the sample shape is not representable or the count overflows.
pub fn demo_jobs(spec: &InputSpec) -> (r: Result<Vec<Job>, ShapeError>)
    ensures
        r is Ok ==> {
            let jobs = r.unwrap()@;
            &&& jobs.len() == spec.batch * 4
            &&& forall|k: int|
                0 <= k < jobs.len() ==> {
                    &&& (#[trigger] jobs[k]).id@ == demo_prefix() + decimal(k as nat)
                    &&& jobs[k].tensor@.dims == seq![1usize, spec.channels, spec.height, spec.width]
                    &&& jobs[k].tensor@.all_zero()
                }
        },
        r is Err <==> spec.batch * 4 > usize::MAX || (spec.batch > 0 && !shape_fits(
            seq![1usize, spec.channels, spec.height, spec.width],
        )),
{
    let count = match spec.batch.checked_mul(4) {
        Some(count) => count,
        None => {
            return Err(ShapeError::Overflow);
        },
    };
    let mut jobs: Vec<Job> = Vec::new();
    let mut k: usize = 0;
    while k < count
        invariant
            k <= count,
            count == spec.batch * 4,
            k > 0 ==> shape_fits(
                seq![1usize, spec.channels, spec.height, spec.width],
            ),
            jobs.len() == k,
            forall|i: int|
                0 <= i < k ==> {
                    &&& (#[trigger] jobs[i]).id@ == demo_prefix() + decimal(i as nat)
                    &&& jobs[i].tensor@.dims == seq![1usize, spec.channels, spec.height, spec.width]
                    &&& jobs[i].tensor@.all_zero()
                },
        decreases count - k,
    {
        let mut shape: Vec<usize> = Vec::new();
        shape.push(1);
        shape.push(spec.channels);
        shape.push(spec.height);
        shape.push(spec.width);
        assert(shape@ =~= seq![1usize, spec.channels, spec.height, spec.width]);
        let tensor = match Tensor::zeros(shape) {
            Ok(t) => t,
            Err(e) => {
                return Err(e);
            },
        };
        let mut id = String::from_str("job-");
        push_decimal(&mut id, k);
        jobs.push(Job { id, tensor });
        k = k + 1;
    }
    Ok(jobs)
}

/// Why a run of the runtime fails.
#[derive(Debug, Clone, PartialEq, Eq)]
pub enum RuntimeError {
    /// The configuration is not in order; nothing was started.
    Config(ConfigError),
    /// There is no executor, so there is no worker.
    NoWorkers,
    /// There is not one executor for each worker that the configuration
    /// asks for.
    WorkerCount,
    /// An executor was made for another device than its worker's.
    WorkerDevice,
    /// A worker failed: the error of the first worker that did.
    Worker(WorkerError),
}

/// The ids of a list of jobs, in order.
pub open spec fn ids_of(jobs: Seq<JobView>) -> Seq<Seq<char>> {
    Seq::new(jobs.len(), |i: int| jobs[i].id)
}

/// The ids of the jobs that the first `upto` of `workers` workers are sent,
/// worker after worker, each worker's jobs in the order of the main queue.
/// The first job goes to the worker that `counter` selects.
pub open spec fn served(jobs: Seq<JobView>, workers: nat, upto: nat, counter: nat) -> Seq<
    Seq<char>,
>
    decreases upto,
{
    if upto == 0 {
        Seq::empty()
    } else {
        served(jobs, workers, (upto - 1) as nat, counter) + ids_of(
            share(jobs, workers, (upto - 1) as nat, counter),
        )
    }
}

/// What the first job adds to the ids that the first `upto` workers are
/// sent: its id, where it goes to one of them.
proof fn lemma_served_first(jobs: Seq<JobView>, workers: nat, upto: nat, counter: nat)
    requires
        jobs.len() >= 1,
        workers >= 1,
    ensures
        served(jobs, workers, upto, counter).to_multiset() == (if counter % workers < upto {
            served(jobs.skip(1), workers, upto, counter + 1).to_multiset().insert(jobs[0].id)
        } else {
            served(jobs.skip(1), workers, upto, counter + 1).to_multiset()
        }),
    decreases upto,
{
    broadcast use vstd::multiset::group_multiset_axioms;

    let rest = jobs.skip(1);
    if upto == 0 {
    } else {
        let w = (upto - 1) as nat;
        lemma_served_first(jobs, workers, w, counter);
        let before = served(jobs, workers, w, counter);
        let before_rest = served(rest, workers, w, counter + 1);
        let mine = ids_of(share(jobs, workers, w, counter));
        let mine_rest = ids_of(share(rest, workers, w, counter + 1));
        vstd::seq_lib::lemma_multiset_commutative(before, mine);
        vstd::seq_lib::lemma_multiset_commutative(before_rest, mine_rest);
        if counter % workers == w {
            assert(mine =~= seq![jobs[0].id] + mine_rest);
            vstd::seq_lib::lemma_seq_union_to_multiset_commutative(seq![jobs[0].id], mine_rest);
            assert(mine_rest + seq![jobs[0].id] =~= mine_rest.push(jobs[0].id));
            mine_rest.to_multiset_ensures();
            assert(mine.to_multiset() =~= mine_rest.to_multiset().insert(jobs[0].id));
            assert(served(jobs, workers, upto, counter).to_multiset() =~= served(
                rest,
                workers,
                upto,
                counter + 1,
            ).to_multiset().insert(jobs[0].id));
        } else {
            assert(mine =~= mine_rest);
            if counter % workers < w {
                assert(served(jobs, workers, upto, counter).to_multiset() =~= served(
                    rest,
                    workers,
                    upto,
                    counter + 1,
                ).to_multiset().insert(jobs[0].id));
            } else {
                assert(served(jobs, workers, upto, counter).to_multiset() =~= served(
                    rest,
                    workers,
                    upto,
                    counter + 1,
                ).to_multiset());
            }
        }
    }
}

/// Round-robin fan-out loses no job and doubles none: the ids that all the
/// workers together are sent are the ids of the jobs, each as often as it
/// occurs among them.
pub proof fn lemma_served_all(jobs: Seq<JobView>, workers: nat, counter: nat)
    requires
        workers >= 1,
    ensures
        served(jobs, workers, workers, counter).to_multiset() == ids_of(jobs).to_multiset(),
        served(jobs, workers, workers, counter).len() == jobs.len(),
    decreases jobs.len(),
{
    broadcast use vstd::multiset::group_multiset_axioms;

    if jobs.len() == 0 {
        lemma_served_empty(workers, workers, counter);
        assert(jobs =~= Seq::<JobView>::empty());
        assert(ids_of(jobs) =~= Seq::<Seq<char>>::empty());
    } else {
        let rest = jobs.skip(1);
        lemma_served_all(rest, workers, counter + 1);
        lemma_served_first(jobs, workers, workers, counter);
        assert(counter % workers < workers) by (nonlinear_arith)
            requires
                workers >= 1,
        ;
        assert(ids_of(jobs) =~= seq![jobs[0].id] + ids_of(rest));
        vstd::seq_lib::lemma_seq_union_to_multiset_commutative(seq![jobs[0].id], ids_of(rest));
        assert(ids_of(rest) + seq![jobs[0].id] =~= ids_of(rest).push(jobs[0].id));
        ids_of(rest).to_multiset_ensures();
        assert(ids_of(jobs).to_multiset() =~= ids_of(rest).to_multiset().insert(jobs[0].id));
        assert(served(jobs, workers, workers, counter).to_multiset() =~= ids_of(
            jobs,
        ).to_multiset());
    }
    served(jobs, workers, workers, counter).to_multiset_ensures();
    ids_of(jobs).to_multiset_ensures();
}

/// Without jobs, no worker is sent anything.
proof fn lemma_served_empty(workers: nat, upto: nat, counter: nat)
    ensures
        served(Seq::<JobView>::empty(), workers, upto, counter) == Seq::<Seq<char>>::empty(),
    decreases upto,
{
    if upto > 0 {
        lemma_served_empty(workers, (upto - 1) as nat, counter);
        assert(ids_of(share(Seq::<JobView>::empty(), workers, (upto - 1) as nat, counter))
            =~= Seq::<Seq<char>>::empty());
        assert(served(Seq::<JobView>::empty(), workers, upto, counter) =~= Seq::<
            Seq<char>,
        >::empty());
    }
}

/// An open, empty queue at time zero.
pub open spec fn fresh_queue() -> QueueView {
    QueueView { pending: Seq::empty(), now: 0, clock: 0, closed: false }
}

/// A worker drained its queue: every window that held a job passed.
pub open spec fn drained_all<P: Preprocessor, Q: Postprocessor>(
    cfg: Config,
    io: ModelIoView,
    pipeline: Pipeline<P, Q>,
    prefix: Seq<char>,
    queue: QueueView,
) -> bool {
    forall|n: nat| #[trigger] passes(cfg, io, pipeline, prefix, queue, n)
}

/// A worker failed with `error` on one of the windows of its queue.
pub open spec fn worker_stopped<P: Preprocessor, Q: Postprocessor>(
    cfg: Config,
    io: ModelIoView,
    pipeline: Pipeline<P, Q>,
    prefix: Seq<char>,
    queue: QueueView,
    error: WorkerError,
) -> bool {
    exists|end: QueueView, written: nat| #[trigger]
        stopped(cfg, io, pipeline, prefix, queue, end, written, error)
}

/// What the outcome of a worker says of its run on its queue.
pub open spec fn verdict<P: Preprocessor, Q: Postprocessor>(
    cfg: Config,
    io: ModelIoView,
    pipeline: Pipeline<P, Q>,
    prefix: Seq<char>,
    queue: QueueView,
    outcome: Result<(), WorkerError>,
) -> bool {
    match outcome {
        Ok(_) => drained_all(cfg, io, pipeline, prefix, queue),
        Err(e) => worker_stopped(cfg, io, pipeline, prefix, queue, e),
    }
}

/// Worker `w` is the first that failed, with `error`: every worker before
/// it drained its share, and it stopped on a window of its own.
pub open spec fn failed_at<E: Engine, P: Preprocessor, Q: Postprocessor>(
    cfg: Config,
    engines: Seq<E>,
    pipeline: Pipeline<P, Q>,
    prefix: Seq<char>,
    shares: Seq<QueueView>,
    w: int,
    error: WorkerError,
) -> bool {
    &&& 0 <= w < engines.len()
    &&& forall|v: int|
        0 <= v < w ==> drained_all(cfg, (#[trigger] engines[v]).io(), pipeline, prefix, shares[v])
    &&& worker_stopped(cfg, engines[w].io(), pipeline, prefix, shares[w], error)
}

/// Some worker is the first that failed, with `error`; see [`failed_at`].
pub open spec fn run_failed<E: Engine, P: Preprocessor, Q: Postprocessor>(
    cfg: Config,
    engines: Seq<E>,
    pipeline: Pipeline<P, Q>,
    prefix: Seq<char>,
    shares: Seq<QueueView>,
    error: WorkerError,
) -> bool {
    exists|w: int| #[trigger] failed_at(cfg, engines, pipeline, prefix, shares, w, error)
}

/// Every worker drained its share.
pub open spec fn run_drained<E: Engine, P: Preprocessor, Q: Postprocessor>(
    cfg: Config,
    engines: Seq<E>,
    pipeline: Pipeline<P, Q>,
    prefix: Seq<char>,
    shares: Seq<QueueView>,
) -> bool {
    forall|w: int|
        0 <= w < engines.len() ==> drained_all(
            cfg,
            (#[trigger] engines[w]).io(),
            pipeline,
            prefix,
            shares[w],
        )
}

/// Whether a run starts: the configuration is in order and there is one
/// executor for each worker that it asks for, made for that worker's device.
pub open spec fn starts<E: Engine>(cfg: Config, engines: Seq<E>) -> bool {
    &&& config_failure(cfg) is None
    &&& engines.len() == devices_of(cfg.model).len()
    &&& forall|k: int|
        0 <= k < engines.len() ==> (#[trigger] engines[k]).device() == devices_of(cfg.model)[k]
}

/// Why a run does not start, where it does not: the first of a faulty
/// configuration, no executor, another number of executors than of workers,
/// and an executor made for another device than its worker's.
pub open spec fn start_failure<E: Engine>(cfg: Config, engines: Seq<E>) -> RuntimeError {
    match config_failure(cfg) {
        Some(e) => RuntimeError::Config(e),
        None => if engines.len() == 0 {
            RuntimeError::NoWorkers
        } else if engines.len() != devices_of(cfg.model).len() {
            RuntimeError::WorkerCount
        } else {
            RuntimeError::WorkerDevice
        },
    }
}

/// Runs one dispatcher and one worker per executor over the main queue until
/// it is drained: the jobs are dealt out round-robin, each worker takes its
/// share through the pipeline, and every worker runs to its end before the
/// outcomes are joined. The records go to `sink`, worker after worker.
///
/// Nothing is started, and nothing written, where the configuration is not
/// in order or there is not one executor for each worker that it asks for,
/// made for that worker's device. A run without jobs succeeds. A run fails
/// with the error of the first worker that failed.
pub fn start_runtime<E: Engine, P: Preprocessor, Q: Postprocessor>(
    cfg: &Config,
    engines: &mut Vec<E>,
    main: &mut JobQueue,
    store: &RedisStorage,
    pipeline: &Pipeline<P, Q>,
    sink: &mut Vec<ResultRecord>,
) -> (r: Result<(), RuntimeError>)
    ensures
        final(engines).len() == old(engines).len(),
        forall|k: int|
            0 <= k < old(engines).len() ==> (#[trigger] final(engines)[k]).io() == old(engines)[k].io(),
        old(sink)@.len() <= final(sink)@.len(),
        final(sink)@.subrange(0, old(sink)@.len() as int) == old(sink)@,
        keyed(final(sink)@.skip(old(sink)@.len() as int), store.prefix()),
        !starts(*cfg, old(engines)@) ==> {
            &&& final(main)@ == old(main)@
            &&& final(sink)@ == old(sink)@
            &&& r == Err::<(), RuntimeError>(start_failure(*cfg, old(engines)@))
        },
        starts(*cfg, old(engines)@) ==> {
            let end = fan_out(
                FanOut {
                    main: old(main)@,
                    workers: Seq::new(old(engines).len() as nat, |w: int| fresh_queue()),
                    counter: 0,
                },
            );
            &&& final(main)@.pending.len() == 0
            &&& final(main)@ == end.main
            &&& old(main)@.pending.len() == 0 ==> r is Ok && final(sink)@ == old(sink)@
            &&& r is Ok ==> record_ids(final(sink)@.skip(old(sink)@.len() as int)) == served(
                old(main)@.jobs(),
                old(engines).len() as nat,
                old(engines).len() as nat,
                0,
            )
            &&& r is Ok ==> run_drained(*cfg, old(engines)@, *pipeline, store.prefix(), end.workers)
            &&& r is Err ==> r->Err_0 is Worker && run_failed(
                *cfg,
                old(engines)@,
                *pipeline,
                store.prefix(),
                end.workers,
                r->Err_0->Worker_0,
            )
        },
{
    let n = engines.len();
    let ghost start_sink = sink@;
    let ghost jobs = main@.jobs();
    let ghost initial = engines@;
    proof {
        assert(sink@.subrange(0, start_sink.len() as int) =~= start_sink);
        assert(sink@.skip(start_sink.len() as int) =~= Seq::<ResultRecord>::empty());
    }
    match check_config(cfg) {
        Ok(()) => {},
        Err(e) => {
            return Err(RuntimeError::Config(e));
        },
    }
    if n == 0 {
        return Err(RuntimeError::NoWorkers);
    }
    let devices = worker_devices(&cfg.model);
    if n != devices.len() {
        return Err(RuntimeError::WorkerCount);
    }
    let mut checked: usize = 0;
    while checked < n
        invariant
            checked <= n,
            n == engines.len(),
            n == devices.len(),
            engines@ == initial,
            n > 0,
            config_failure(*cfg) is None,
            main@ == old(main)@,
            sink@ == old(sink)@,
            devices@ == devices_of(cfg.model),
            forall|k: int| 0 <= k < checked ==> (#[trigger] initial[k]).device() == devices@[k],
        decreases n - checked,
    {
        let same = match (engines[checked].device_id(), devices[checked]) {
            (Some(a), Some(b)) => a == b,
            (None, None) => true,
            _ => false,
        };
        if !same {
            return Err(RuntimeError::WorkerDevice);
        }
        checked = checked + 1;
    }
    let mut queues: Vec<JobQueue> = Vec::new();
    while queues.len() < n
        invariant
            queues.len() <= n,
            forall|w: int| 0 <= w < queues.len() ==> (#[trigger] queues[w])@ == fresh_queue(),
        decreases n - queues.len(),
    {
        let queue = JobQueue::new();
        assert(queue@.pending =~= Seq::<ArrivalView>::empty());
        queues.push(queue);
    }
    let total = main.len();
    let ghost state = FanOut {
        main: main@,
        workers: Seq::new(n as nat, |w: int| fresh_queue()),
        counter: 0,
    };
    proof {
        assert(queue_views(queues@) =~= state.workers);
        lemma_round_robin(state);
    }
    let _ = dispatch(main, &mut queues);
    let ghost end = fan_out(state);
    let mut outcomes: Vec<Result<(), WorkerError>> = Vec::new();
    let ghost mut clean = true;
    let mut k: usize = 0;
    while k < n
        invariant
            k <= n,
            n == engines.len(),
            n == old(engines).len(),
            n == end.workers.len(),
            outcomes.len() == k,
            queues.len() == n - k,
            forall|w: int| 0 <= w < n - k ==> (#[trigger] queues[w])@ == end.workers[k + w],
            forall|w: int|
                0 <= w < n ==> (#[trigger] end.workers[w]).jobs() == Seq::<JobView>::empty() + share(
                    jobs,
                    n as nat,
                    w as nat,
                    0,
                ),
            forall|i: int| 0 <= i < n ==> (#[trigger] engines[i]).io() == old(engines)[i].io(),
            initial == old(engines)@,
            starts(*cfg, initial),
            forall|v: int|
                0 <= v < k ==> verdict(
                    *cfg,
                    initial[v].io(),
                    *pipeline,
                    store.prefix(),
                    end.workers[v],
                    #[trigger] outcomes@[v],
                ),
            jobs.len() == 0 ==> clean && sink@ == start_sink,
            start_sink == old(sink)@,
            start_sink.len() <= sink@.len(),
            sink@.subrange(0, start_sink.len() as int) == start_sink,
            keyed(sink@.skip(start_sink.len() as int), store.prefix()),
            clean <==> (forall|i: int| 0 <= i < k ==> outcomes@[i] is Ok),
            clean ==> record_ids(sink@.skip(start_sink.len() as int)) == served(
                jobs,
                n as nat,
                k as nat,
                0,
            ),
        decreases n - k,
    {
        let ghost before = sink@;
        let ghost held = queues@;
        let ghost engines_before = engines@;
        let mut queue = queues.remove(0);
        let mut engine = engines.remove(k);
        let ghost pending = queue@;
        let outcome = run_gpu_worker(cfg, &mut engine, &mut queue, store, pipeline, sink);
        engines.insert(k, engine);
        proof {
            assert(pending == end.workers[k as int]);
            assert(engines_before[k as int].io() == initial[k as int].io());
            assert(verdict(
                *cfg,
                initial[k as int].io(),
                *pipeline,
                store.prefix(),
                end.workers[k as int],
                outcome,
            )) by {
                if outcome is Err {
                    assert(stopped(
                        *cfg,
                        initial[k as int].io(),
                        *pipeline,
                        store.prefix(),
                        pending,
                        queue@,
                        sink@.skip(before.len() as int).len(),
                        outcome->Err_0,
                    ));
                }
            }
            if jobs.len() == 0 {
                assert(share(jobs, n as nat, k as nat, 0) =~= Seq::<JobView>::empty());
                assert(pending.jobs().len() == 0);
                assert(pending.pending.len() == pending.jobs().len());
                assert(sink@ =~= before) by {
                    assert(sink@.subrange(0, before.len() as int) == before);
                }
            }
            let fresh = sink@.skip(before.len() as int);
            let written = sink@.skip(start_sink.len() as int);
            let earlier = before.skip(start_sink.len() as int);
            assert(sink@ =~= before + fresh) by {
                assert(sink@.subrange(0, before.len() as int) == before);
            }
            assert(written =~= earlier + fresh);
            assert(sink@.subrange(0, start_sink.len() as int) =~= start_sink) by {
                assert(sink@.subrange(0, before.len() as int) == before);
                assert(before.subrange(0, start_sink.len() as int) == start_sink);
            }
            assert(keyed(written, store.prefix())) by {
                assert forall|i: int| 0 <= i < written.len() implies (#[trigger] written[i]).key@
                    == sink_key(store.prefix(), written[i].id@) by {
                    if i < earlier.len() {
                        assert(written[i] == earlier[i]);
                    } else {
                        assert(written[i] == fresh[i - earlier.len()]);
                    }
                }
            }
            if outcome is Ok && clean {
                let mine = share(jobs, n as nat, k as nat, 0);
                assert(pending.jobs() =~= mine);
                assert(pending.pending_ids() =~= ids_of(mine));
                assert(record_ids(fresh) =~= ids_of(mine)) by {
                    assert(pending.pending_ids().subrange(0, fresh.len() as int)
                        =~= pending.pending_ids());
                }
                assert(record_ids(written) =~= record_ids(earlier) + record_ids(fresh));
            }
            assert forall|w: int| 0 <= w < n - k - 1 implies (#[trigger] queues[w])@
                == end.workers[k + 1 + w] by {
                assert(queues[w] == held[w + 1]);
            }
            assert forall|i: int| 0 <= i < n implies (#[trigger] engines[i]).io() == old(
                engines,
            )[i].io() by {
                if i < k {
                    assert(engines[i] == engines_before[i]);
                } else if i > k {
                    assert(engines[i] == engines_before[i]);
                }
            }
        }
        let ghost earlier_outcomes = outcomes@;
        outcomes.push(outcome);
        proof {
            assert forall|v: int| 0 <= v < k + 1 implies verdict(
                *cfg,
                initial[v].io(),
                *pipeline,
                store.prefix(),
                end.workers[v],
                #[trigger] outcomes@[v],
            ) by {
                if v < k {
                    assert(outcomes@[v] == earlier_outcomes[v]);
                }
            }
            let ok = outcome is Ok;
            if clean && ok {
                assert forall|i: int| 0 <= i < k + 1 implies outcomes@[i] is Ok by {
                    if i < k {
                        assert(outcomes@[i] == earlier_outcomes[i]);
                    }
                }
            } else if !ok {
                assert(outcomes@[k as int] is Err);
            } else {
                let i = choose|i: int| 0 <= i < k && !(earlier_outcomes[i] is Ok);
                assert(outcomes@[i] == earlier_outcomes[i]);
            }
            clean = clean && ok;
        }
        k = k + 1;
    }
    let ghost all = outcomes@;
    match first_error(outcomes) {
        Ok(()) => {
            proof {
                assert(run_drained(*cfg, initial, *pipeline, store.prefix(), end.workers)) by {
                    assert forall|w: int| 0 <= w < initial.len() implies drained_all(
                        *cfg,
                        (#[trigger] initial[w]).io(),
                        *pipeline,
                        store.prefix(),
                        end.workers[w],
                    ) by {
                        assert(all[w] is Ok);
                    }
                }
            }
            Ok(())
        },
        Err(e) => {
            proof {
                let w = first_failure(all).unwrap();
                assert(all[w] == Err::<(), WorkerError>(e));
                assert(failed_at(*cfg, initial, *pipeline, store.prefix(), end.workers, w, e)) by {
                    assert forall|v: int| 0 <= v < w implies drained_all(
                        *cfg,
                        (#[trigger] initial[v]).io(),
                        *pipeline,
                        store.prefix(),
                        end.workers[v],
                    ) by {
                        assert(all[v] is Ok);
                    }
                }
                assert(run_failed(*cfg, initial, *pipeline, store.prefix(), end.workers, e));
            }
            Err(RuntimeError::Worker(e))
        },
    }
}

} // verus!
