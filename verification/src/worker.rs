//! The worker: what happens to one batch between the batcher and the sink,
//! and the loop that drains a queue.

use crate::batcher::{batch_dims, batch_failure, collect, collect_batch, lemma_collect_takes_front, BatchError};
use crate::engine::{Engine, EngineError, ModelIoView};
use crate::pipeline::{Pipeline, Postprocessor, Preprocessor, TransformError};
use crate::queue::{JobQueue, QueueView};
use crate::storage::redis_store::RedisStorage;
use crate::tensor::{Tensor, TensorView};
use crate::text::{has_dummy_prefix, single_precision, single_precision_tag, sink_key};
use crate::types::{Batch, BatchView, Config, InputSpec, JobView, SpecMismatch};
use vstd::prelude::*;

verus! {

/// The largest number of output values that a record keeps.
pub const MAX_RECORD_VALUES: usize = 256;

/// Why a worker gives up.
#[derive(Debug, Clone, PartialEq, Eq)]
pub enum WorkerError {
    /// The jobs of a window do not make a batch.
    Batch(BatchError),
    /// The preprocessor failed.
    Pre(TransformError),
    /// The preprocessed batch does not meet the input specification.
    Spec(SpecMismatch),
    /// The executor failed.
    Engine(EngineError),
    /// The postprocessor failed.
    Post(TransformError),
    /// The output has no leading axis, or not one slice per id.
    LengthMismatch,
    /// The time of the records lies outside the dates that can be written.
    Clock,
}

/// What is stored for one real job.
#[derive(Debug, Clone)]
pub struct ResultRecord {
    /// The key of the record in the store.
    pub key: String,
    /// The id of the job.
    pub id: String,
    /// When the record was made: UTC, in the RFC 3339 format.
    pub timestamp: String,
    /// The shape of the job's slice of the output.
    pub shape: Vec<usize>,
    /// The leading values of the job's slice of the output, at most
    /// [`MAX_RECORD_VALUES`] of them.
    pub data: Vec<u32>,
}

/// The mathematical value of a record.
pub struct RecordView {
    pub key: Seq<char>,
    pub id: Seq<char>,
    pub timestamp: Seq<char>,
    pub shape: Seq<usize>,
    pub data: Seq<u32>,
}

impl View for ResultRecord {
    type V = RecordView;

    open spec fn view(&self) -> RecordView {
        RecordView {
            key: self.key@,
            id: self.id@,
            timestamp: self.timestamp@,
            shape: self.shape@,
            data: self.data@,
        }
    }
}

/// The leading values of a slice that a record keeps.
pub open spec fn capped(values: Seq<u32>) -> Seq<u32> {
    if values.len() > MAX_RECORD_VALUES {
        values.subrange(0, MAX_RECORD_VALUES as int)
    } else {
        values
    }
}

/// The record of the job at index `i` of a batch whose output is `y`, made
/// at the time that `stamp` writes.
pub open spec fn record_of(
    prefix: Seq<char>,
    batch: BatchView,
    y: TensorView,
    i: int,
    stamp: Seq<char>,
) -> RecordView {
    RecordView {
        key: sink_key(prefix, batch.ids[i]),
        id: batch.ids[i],
        timestamp: stamp,
        shape: y.dims.skip(1),
        data: capped(y.row(i)),
    }
}

/// How many records a batch gives: one per real job.
pub open spec fn record_count(batch: BatchView) -> nat {
    if batch.actual_len <= batch.ids.len() {
        batch.actual_len
    } else {
        batch.ids.len()
    }
}

/// `records` are the records of the real jobs of `batch`, in batch order,
/// for the output `y`, each with the time stamp `stamp`.
pub open spec fn records_of(
    records: Seq<ResultRecord>,
    prefix: Seq<char>,
    batch: BatchView,
    y: TensorView,
    stamp: Seq<char>,
) -> bool {
    &&& records.len() == record_count(batch)
    &&& forall|i: int|
        0 <= i < records.len() ==> (#[trigger] records[i])@ == record_of(prefix, batch, y, i, stamp)
}

/// The output has one slice along its leading axis per id of the batch.
pub open spec fn output_fits(batch: BatchView, y: TensorView) -> bool {
    y.dims.len() >= 1 && y.dims[0] == batch.ids.len()
}

/// The RFC 3339 text, in UTC, of the moment that lies `millis` milliseconds
/// after the beginning of 1970, as `chrono` writes it; `None` for a moment
/// outside the dates that `chrono` can hold.
pub uninterp spec fn utc_rfc3339(millis: i64) -> Option<Seq<char>>;

/// Calls `chrono::DateTime::from_timestamp_millis` and, on the moment that
/// it gives, `to_rfc3339`. Both depend on the number alone, and neither
/// panics: a number out of range gives `None`.
#[verifier::external_body]
fn format_utc(millis: i64) -> (r: Option<String>)
    ensures
        match r {
            Some(text) => utc_rfc3339(millis) == Some(text@),
            None => utc_rfc3339(millis) is None,
        },
{
    chrono::DateTime::from_timestamp_millis(millis).map(|moment| moment.to_rfc3339())
}

/// The time stamp of a record made `now_ms` milliseconds after the beginning
/// of 1970, if that moment can be written.
pub open spec fn stamp_of(now_ms: u64) -> Option<Seq<char>> {
    if now_ms > i64::MAX {
        None
    } else {
        utc_rfc3339(now_ms as i64)
    }
}

/// The time stamp of a record made `now_ms` milliseconds after the beginning
/// of 1970: UTC, in the RFC 3339 format.
pub fn time_stamp(now_ms: u64) -> (r: Option<String>)
    ensures
        match r {
            Some(text) => stamp_of(now_ms) == Some(text@),
            None => stamp_of(now_ms) is None,
        },
{
    if now_ms > 9223372036854775807u64 {
        None
    } else {
        format_utc(now_ms as i64)
    }
}

/// Makes the records of a batch from the output `y` of its inference: one
/// per real job, in batch order, and none for padding, each with the time
/// stamp `stamp`.
pub fn make_records(store: &RedisStorage, batch: &Batch, y: &Tensor, stamp: &str) -> (r: Result<
    Vec<ResultRecord>,
    WorkerError,
>)
    ensures
        match r {
            Ok(records) => output_fits(batch@, y@) && records_of(
                records@,
                store.prefix(),
                batch@,
                y@,
                stamp@,
            ),
            Err(e) => e == WorkerError::LengthMismatch && !output_fits(batch@, y@),
        },
{
    let n = match y.leading() {
        Some(n) => n,
        None => {
            return Err(WorkerError::LengthMismatch);
        },
    };
    if n != batch.ids.len() {
        return Err(WorkerError::LengthMismatch);
    }
    let count = if batch.actual_len <= batch.ids.len() {
        batch.actual_len
    } else {
        batch.ids.len()
    };
    let mut records: Vec<ResultRecord> = Vec::new();
    let mut i: usize = 0;
    while i < count
        invariant
            i <= count,
            count == record_count(batch@),
            count <= batch.ids.len(),
            output_fits(batch@, y@),
            records.len() == i,
            forall|k: int|
                0 <= k < i ==> (#[trigger] records[k])@ == record_of(
                    store.prefix(),
                    batch@,
                    y@,
                    k,
                    stamp@,
                ),
        decreases count - i,
    {
        let id = &batch.ids[i];
        match y.index_axis0(i) {
            Some(slice) => {
                let shape = slice.shape().clone();
                let mut data = slice.into_data();
                data.truncate(MAX_RECORD_VALUES);
                let record = ResultRecord {
                    key: store.key_for(id.as_str()),
                    id: id.clone(),
                    timestamp: String::from_str(stamp),
                    shape,
                    data,
                };
                proof {
                    assert(record.shape@ =~= y@.dims.skip(1));
                    assert(record.data@ =~= capped(y@.row(i as int)));
                    assert(batch@.ids[i as int] == id@);
                }
                records.push(record);
            },
            None => {
                return Err(WorkerError::LengthMismatch);
            },
        }
        i = i + 1;
    }
    Ok(records)
}

/// Makes the records of a batch from the output `y` of its inference, as
/// [`make_records`] does, stamped with the time `now_ms`, in milliseconds
/// since the beginning of 1970. The records are for the caller to store, in
/// this order.
pub fn write_outputs(store: &RedisStorage, batch: &Batch, y: &Tensor, now_ms: u64) -> (r: Result<
    Vec<ResultRecord>,
    WorkerError,
>)
    ensures
        match r {
            Ok(records) => {
                &&& output_fits(batch@, y@)
                &&& stamp_of(now_ms) is Some
                &&& records_of(records@, store.prefix(), batch@, y@, stamp_of(now_ms).unwrap())
            },
            Err(e) => if !output_fits(batch@, y@) {
                e == WorkerError::LengthMismatch
            } else {
                e == WorkerError::Clock && stamp_of(now_ms) is None
            },
        },
{
    let fits = match y.leading() {
        Some(n) => n == batch.ids.len(),
        None => false,
    };
    if !fits {
        return Err(WorkerError::LengthMismatch);
    }
    match time_stamp(now_ms) {
        Some(stamp) => make_records(store, batch, y, stamp.as_str()),
        None => Err(WorkerError::Clock),
    }
}

/// The largest number of real jobs in one batch: the configured bound, but
/// no more than the model's batch size.
pub open spec fn effective_batch(cfg: Config) -> nat {
    if cfg.queue.max_batch <= cfg.input.batch {
        cfg.queue.max_batch as nat
    } else {
        cfg.input.batch as nat
    }
}

/// The largest number of real jobs in one batch: the configured bound, but
/// no more than the model's batch size.
pub fn effective_max_batch(cfg: &Config) -> (r: usize)
    ensures
        r == effective_batch(*cfg),
{
    if cfg.queue.max_batch <= cfg.input.batch {
        cfg.queue.max_batch
    } else {
        cfg.input.batch
    }
}

/// The ids of a list of records, in order.
pub open spec fn record_ids(records: Seq<ResultRecord>) -> Seq<Seq<char>> {
    Seq::new(records.len(), |i: int| records[i].id@)
}

/// Every record is stored under its prefix, a colon and its id.
pub open spec fn keyed(records: Seq<ResultRecord>, prefix: Seq<char>) -> bool {
    forall|i: int| 0 <= i < records.len() ==> (#[trigger] records[i]).key@ == sink_key(
        prefix,
        records[i].id@,
    )
}

/// Every record bears the time stamp of some moment.
pub open spec fn dated(records: Seq<ResultRecord>) -> bool {
    forall|i: int|
        0 <= i < records.len() ==> exists|ms: u64| #[trigger]
            stamp_of(ms) == Some((#[trigger] records[i]).timestamp@)
}

/// Every record has the given shape, and no more values than a record
/// keeps.
pub open spec fn shaped(records: Seq<ResultRecord>, dims: Seq<usize>) -> bool {
    forall|i: int|
        0 <= i < records.len() ==> {
            &&& (#[trigger] records[i]).shape@ == dims
            &&& records[i].data@.len() <= MAX_RECORD_VALUES
        }
}

/// What a preprocessor may give for a tensor: a result of its `run`, or the
/// tensor itself where the pipeline has none.
pub open spec fn pre_gives<P: Preprocessor, Q: Postprocessor>(
    pipeline: Pipeline<P, Q>,
    tensor: Tensor,
    given: Result<Tensor, TransformError>,
) -> bool {
    match pipeline.pre {
        Some(pre) => call_ensures(P::run, (&pre, tensor), given),
        None => given is Ok && given.unwrap()@ == tensor@,
    }
}

/// What becomes of a batch whose preprocessed tensor has the shape `dims`:
/// it is refused where the shape does not meet the input specification, and
/// then where it is not the executor's declared input shape; no other
/// failure is one of these; and on success there are the records of the
/// real jobs for an output `y` with one slice per id, stamped with the time
/// `now_ms`.
pub open spec fn served(
    spec: InputSpec,
    io: ModelIoView,
    no_post: bool,
    prefix: Seq<char>,
    batch: BatchView,
    dims: Seq<usize>,
    now_ms: u64,
    r: Result<Vec<ResultRecord>, WorkerError>,
) -> bool {
    &&& match spec.check(dims, single_precision_tag()) {
        Err(m) => r == Err::<Vec<ResultRecord>, WorkerError>(WorkerError::Spec(m)),
        Ok(_) => match io.input_verdict(dims) {
            Err(e) => r == Err::<Vec<ResultRecord>, WorkerError>(WorkerError::Engine(e)),
            Ok(_) => r is Err ==> {
                &&& !(r->Err_0 is Spec)
                &&& r->Err_0 != WorkerError::Engine(EngineError::InputShape)
                &&& r->Err_0 != WorkerError::Engine(EngineError::NoInputDeclared)
            },
        },
    }
    &&& r is Err ==> !(r->Err_0 is Batch) && !(r->Err_0 is Pre)
    &&& r is Ok ==> stamp_of(now_ms) is Some && exists|y: TensorView|
        {
            &&& output_fits(batch, y)
            &&& #[trigger] records_of(r.unwrap()@, prefix, batch, y, stamp_of(now_ms).unwrap())
            &&& no_post ==> io.output_dims() == Some(y.dims)
        }
}

/// Takes a preprocessed batch the rest of the way: checks its tensor
/// against the input specification, infers, postprocesses, and makes the
/// records of the real jobs, stamped with the time `now_ms`.
///
/// A tensor of the wrong shape or element type is refused before the
/// executor sees it. Beyond that, success is for the executor and the
/// postprocessor to decide.
pub fn serve_batch<E: Engine, P: Preprocessor, Q: Postprocessor>(
    spec: &InputSpec,
    engine: &mut E,
    pipeline: &Pipeline<P, Q>,
    store: &RedisStorage,
    batch: Batch,
    now_ms: u64,
) -> (r: Result<Vec<ResultRecord>, WorkerError>)
    ensures
        final(engine).io() == old(engine).io(),
        final(engine).kind() == old(engine).kind(),
        served(
            *spec,
            old(engine).io(),
            pipeline.post is None,
            store.prefix(),
            batch@,
            batch@.tensor.dims,
            now_ms,
            r,
        ),
{
    let Batch { ids, tensor, actual_len } = batch;
    let ghost given = (Batch { ids, tensor, actual_len })@;
    match spec.validate(tensor.shape().as_slice(), single_precision()) {
        Ok(()) => {},
        Err(m) => {
            return Err(WorkerError::Spec(m));
        },
    }
    let y = match engine.infer_array(tensor) {
        Ok(y) => y,
        Err(e) => {
            return Err(WorkerError::Engine(e));
        },
    };
    let y = match pipeline.run_post(y) {
        Ok(y) => y,
        Err(e) => {
            return Err(WorkerError::Post(e));
        },
    };
    let batch = Batch { ids, tensor: y, actual_len };
    match write_outputs(store, &batch, &batch.tensor, now_ms) {
        Ok(records) => {
            proof {
                let out = batch.tensor@;
                let stamp = stamp_of(now_ms).unwrap();
                assert(records_of(records@, store.prefix(), given, out, stamp)) by {
                    assert forall|i: int| 0 <= i < records@.len() implies (#[trigger] records@[i])@
                        == record_of(store.prefix(), given, out, i, stamp) by {
                        assert(records@[i]@ == record_of(store.prefix(), batch@, out, i, stamp));
                    }
                }
            }
            Ok(records)
        },
        Err(e) => Err(e),
    }
}

/// What becomes of a batch in the pipeline: the preprocessor gives a
/// tensor or fails; its failure is the batch's; its tensor is served as
/// [`served`] says.
pub open spec fn processed<P: Preprocessor, Q: Postprocessor>(
    pipeline: Pipeline<P, Q>,
    spec: InputSpec,
    io: ModelIoView,
    prefix: Seq<char>,
    batch: Batch,
    now_ms: u64,
    r: Result<Vec<ResultRecord>, WorkerError>,
) -> bool {
    exists|given: Result<Tensor, TransformError>|
        {
            &&& #[trigger] pre_gives(pipeline, batch.tensor, given)
            &&& match given {
                Err(e) => r == Err::<Vec<ResultRecord>, WorkerError>(WorkerError::Pre(e)),
                Ok(x) => served(
                    spec,
                    io,
                    pipeline.post is None,
                    prefix,
                    batch@,
                    x@.dims,
                    now_ms,
                    r,
                ),
            }
        }
}

/// Takes one batch through the pipeline: preprocess, check against the input
/// specification, infer, postprocess, and make the records of the real jobs,
/// stamped with the time `now_ms`.
///
/// Whether it succeeds is for the transforms and the executor to decide. A
/// batch that arrives at the check with a wrong shape is refused before the
/// executor sees it.
pub fn process_batch<E: Engine, P: Preprocessor, Q: Postprocessor>(
    spec: &InputSpec,
    engine: &mut E,
    pipeline: &Pipeline<P, Q>,
    store: &RedisStorage,
    batch: Batch,
    now_ms: u64,
) -> (r: Result<Vec<ResultRecord>, WorkerError>)
    ensures
        final(engine).io() == old(engine).io(),
        final(engine).kind() == old(engine).kind(),
        processed(*pipeline, *spec, old(engine).io(), store.prefix(), batch, now_ms, r),
        pipeline.pre is None ==> served(
            *spec,
            old(engine).io(),
            pipeline.post is None,
            store.prefix(),
            batch@,
            batch@.tensor.dims,
            now_ms,
            r,
        ),
        r is Err ==> !(r->Err_0 is Batch),
        r is Ok ==> stamp_of(now_ms) is Some && exists|y: TensorView|
            {
                &&& output_fits(batch@, y)
                &&& #[trigger] records_of(
                    r.unwrap()@,
                    store.prefix(),
                    batch@,
                    y,
                    stamp_of(now_ms).unwrap(),
                )
                &&& pipeline.post is None ==> old(engine).io().output_dims() == Some(y.dims)
            },
{
    let ghost whole = batch;
    let Batch { ids, tensor, actual_len } = batch;
    let ghost before = tensor;
    let given = pipeline.run_pre(tensor);
    proof {
        assert(pre_gives(*pipeline, before, given));
    }
    match given {
        Err(e) => Err(WorkerError::Pre(e)),
        Ok(x) => {
            let r = serve_batch(spec, engine, pipeline, store, Batch { ids, tensor: x, actual_len }, now_ms);
            proof {
                let inner = (Batch { ids, tensor: x, actual_len })@;
                assert(served(
                    *spec,
                    old(engine).io(),
                    pipeline.post is None,
                    store.prefix(),
                    whole@,
                    x@.dims,
                    now_ms,
                    r,
                )) by {
                    if r is Ok {
                        let stamp = stamp_of(now_ms).unwrap();
                        let y = choose|y: TensorView|
                            {
                                &&& output_fits(inner, y)
                                &&& #[trigger] records_of(r.unwrap()@, store.prefix(), inner, y, stamp)
                                &&& pipeline.post is None ==> old(engine).io().output_dims()
                                    == Some(y.dims)
                            };
                        assert(records_of(r.unwrap()@, store.prefix(), whole@, y, stamp)) by {
                            assert forall|i: int| 0 <= i < r.unwrap()@.len() implies (
                            #[trigger] r.unwrap()@[i])@ == record_of(
                                store.prefix(),
                                whole@,
                                y,
                                i,
                                stamp,
                            ) by {
                                assert(r.unwrap()@[i]@ == record_of(
                                    store.prefix(),
                                    inner,
                                    y,
                                    i,
                                    stamp,
                                ));
                            }
                        }
                        assert(output_fits(whole@, y));
                    }
                }
                assert(processed(
                    *pipeline,
                    *spec,
                    old(engine).io(),
                    store.prefix(),
                    whole,
                    now_ms,
                    r,
                ));
            }
            r
        },
    }
}

/// The queue after window upon window has been collected from it, until a
/// window finds no job; at most `fuel` windows.
pub open spec fn drained(queue: QueueView, max_batch: nat, max_wait_ms: u64, fuel: nat) -> QueueView
    decreases fuel,
{
    if fuel == 0 {
        queue
    } else {
        let w = collect(queue, max_batch, max_wait_ms);
        if w.jobs.len() == 0 {
            w.queue
        } else {
            drained(w.queue, max_batch, max_wait_ms, (fuel - 1) as nat)
        }
    }
}

/// More windows than there are pending jobs make no difference: every
/// window but the last takes a job.
pub proof fn lemma_drained_fuel(queue: QueueView, max_batch: nat, max_wait_ms: u64, a: nat, b: nat)
    requires
        a > queue.pending.len(),
        b > queue.pending.len(),
    ensures
        drained(queue, max_batch, max_wait_ms, a) == drained(queue, max_batch, max_wait_ms, b),
    decreases a,
{
    let w = collect(queue, max_batch, max_wait_ms);
    lemma_collect_takes_front(queue, max_batch, max_wait_ms);
    if w.jobs.len() > 0 {
        lemma_drained_fuel(w.queue, max_batch, max_wait_ms, (a - 1) as nat, (b - 1) as nat);
    }
}

/// Drains a queue: collects batch after batch, takes each through the
/// pipeline and appends its records to `sink`, until the stream ends or a
/// step fails. One record is written per job received, in their order, none
/// for padding. A queue without jobs is drained with success. A failure
/// leaves the records of the batches before the failing one; the jobs of
/// the failing batch have left the queue without a record.
pub fn run_gpu_worker<E: Engine, P: Preprocessor, Q: Postprocessor>(
    cfg: &Config,
    engine: &mut E,
    rx: &mut JobQueue,
    store: &RedisStorage,
    pipeline: &Pipeline<P, Q>,
    sink: &mut Vec<ResultRecord>,
) -> (r: Result<(), WorkerError>)
    ensures
        final(engine).io() == old(engine).io(),
        final(engine).kind() == old(engine).kind(),
        old(sink)@.len() <= final(sink)@.len(),
        final(sink)@.subrange(0, old(sink)@.len() as int) == old(sink)@,
        ({
            let written = final(sink)@.skip(old(sink)@.len() as int);
            let taken = old(rx)@.pending.len() - final(rx)@.pending.len();
            &&& keyed(written, store.prefix())
            &&& dated(written)
            &&& written.len() <= taken
            &&& 0 <= taken
            &&& record_ids(written) == old(rx)@.pending_ids().subrange(0, written.len() as int)
            &&& final(rx)@.pending == old(rx)@.pending.skip(taken)
            &&& r is Ok ==> {
                &&& written.len() == taken
                &&& final(rx)@.pending.len() == 0
                &&& final(rx)@ == drained(
                    old(rx)@,
                    effective_batch(*cfg),
                    cfg.queue.max_wait_ms,
                    old(rx)@.pending.len() + 1,
                )
            }
            &&& pipeline.post is None && written.len() > 0 ==> {
                &&& old(engine).io().output_dims() is Some
                &&& shaped(written, old(engine).io().output_dims().unwrap().skip(1))
            }
            &&& old(rx)@.pending.len() == 0 ==> r is Ok
            &&& r is Ok ==> forall|n: nat| #[trigger]
                passes(*cfg, old(engine).io(), *pipeline, store.prefix(), old(rx)@, n)
            &&& r is Err ==> written.len() < taken
            &&& r is Err ==> stopped(
                *cfg,
                old(engine).io(),
                *pipeline,
                store.prefix(),
                old(rx)@,
                final(rx)@,
                written.len(),
                r->Err_0,
            )
        }),
{
    let spec = cfg.input_spec();
    let max_batch = effective_max_batch(cfg);
    let ghost start_sink = sink@;
    let ghost start = rx@;
    let ghost io = engine.io();
    let ghost mut n: nat = 0;
    proof {
        assert(sink@.subrange(0, start_sink.len() as int) =~= start_sink);
        assert(record_ids(sink@.skip(start_sink.len() as int)) =~= start.pending_ids().subrange(
            0,
            0,
        ));
        assert(rx@.pending =~= start.pending.skip(0));
    }
    loop
        invariant
            engine.io() == old(engine).io(),
            engine.kind() == old(engine).kind(),
            start_sink == old(sink)@,
            start == old(rx)@,
            start_sink.len() <= sink@.len(),
            sink@.subrange(0, start_sink.len() as int) == start_sink,
            max_batch == effective_batch(*cfg),
            io == old(engine).io(),
            spec.batch == cfg.input.batch,
            spec == spec_of(*cfg),
            rx@ == after_windows(start, max_batch as nat, cfg.queue.max_wait_ms, n),
            forall|m: nat| m < n ==> #[trigger] passes(*cfg, io, *pipeline, store.prefix(), start, m),
            drained(rx@, max_batch as nat, cfg.queue.max_wait_ms, rx@.pending.len() + 1) == drained(
                start,
                max_batch as nat,
                cfg.queue.max_wait_ms,
                start.pending.len() + 1,
            ),
            ({
                let written = sink@.skip(start_sink.len() as int);
                &&& keyed(written, store.prefix())
                &&& dated(written)
                &&& written.len() + rx@.pending.len() == start.pending.len()
                &&& record_ids(written) == start.pending_ids().subrange(0, written.len() as int)
                &&& rx@.pending == start.pending.skip(written.len() as int)
                &&& pipeline.post is None && written.len() > 0 ==> {
                    &&& engine.io().output_dims() is Some
                    &&& shaped(written, engine.io().output_dims().unwrap().skip(1))
                }
            }),
        decreases rx@.pending.len(),
    {
        let ghost queue = rx@;
        let ghost before = sink@;
        proof {
            lemma_collect_takes_front(queue, max_batch as nat, cfg.queue.max_wait_ms);
        }
        let batch = match collect_batch(spec.batch, rx, max_batch, cfg.queue.max_wait_ms) {
            Ok(Some(batch)) => batch,
            Ok(None) => {
                proof {
                    assert forall|k: nat| #[trigger] passes(*cfg, io, *pipeline, store.prefix(), start, k) by {
                        if k >= n {
                            lemma_windows_stay_empty(
                                start,
                                max_batch as nat,
                                cfg.queue.max_wait_ms,
                                n,
                                k,
                            );
                        }
                    }
                }
                return Ok(());
            },
            Err(e) => {
                proof {
                    let done = before.len() - start_sink.len();
                    let w = collect(queue, max_batch as nat, cfg.queue.max_wait_ms);
                    assert(rx@.pending =~= start.pending.skip(done + w.jobs.len()));
                    let written = sink@.skip(start_sink.len() as int);
                    assert(written.len() == done);
                    assert(w.jobs.len() > 0);
                    assert(start.pending.len() > 0);
                    assert(written.len() < start.pending.len() - rx@.pending.len());
                    assert(stopped_at(
                        *cfg,
                        io,
                        *pipeline,
                        store.prefix(),
                        start,
                        rx@,
                        written.len(),
                        n,
                        WorkerError::Batch(e),
                    ));
                    assert(stopped(
                        *cfg,
                        io,
                        *pipeline,
                        store.prefix(),
                        start,
                        rx@,
                        written.len(),
                        WorkerError::Batch(e),
                    ));
                }
                return Err(WorkerError::Batch(e));
            },
        };
        let ghost b = batch@;
        let ghost w = collect(queue, max_batch as nat, cfg.queue.max_wait_ms);
        proof {
            let n = before.len() - start_sink.len();
            assert(rx@.pending =~= start.pending.skip(n + w.jobs.len()));
            lemma_drained_fuel(
                rx@,
                max_batch as nat,
                cfg.queue.max_wait_ms,
                queue.pending.len(),
                rx@.pending.len() + 1,
            );
        }
        let now_ms = rx.now();
        let ghost taken = batch;
        let outcome = process_batch(&spec, engine, pipeline, store, batch, now_ms);
        proof {
            assert(spec == spec_of(*cfg));
        }
        let mut records = match outcome {
            Ok(records) => records,
            Err(e) => {
                proof {
                    let done = before.len() - start_sink.len();
                    let written = sink@.skip(start_sink.len() as int);
                    assert(written.len() == done);
                    assert(w.jobs.len() > 0);
                    assert(start.pending.len() > 0);
                    assert(written.len() < start.pending.len() - rx@.pending.len());
                    assert(batch_of(taken, cfg.input.batch as nat, w.jobs));
                    assert(outcome_of(*cfg, io, *pipeline, store.prefix(), w.jobs, outcome));
                    assert(stopped_at(
                        *cfg,
                        io,
                        *pipeline,
                        store.prefix(),
                        start,
                        rx@,
                        written.len(),
                        n,
                        e,
                    ));
                    assert(stopped(*cfg, io, *pipeline, store.prefix(), start, rx@, written.len(), e));
                }
                return Err(e);
            },
        };
        proof {
            assert(batch_of(taken, cfg.input.batch as nat, w.jobs));
            assert(outcome_of(*cfg, io, *pipeline, store.prefix(), w.jobs, outcome));
            assert(passes(*cfg, io, *pipeline, store.prefix(), start, n));
            lemma_after_windows_step(start, max_batch as nat, cfg.queue.max_wait_ms, n);
            n = n + 1;
        }
        let ghost fresh = records@;
        sink.append(&mut records);
        proof {
            let n = before.len() - start_sink.len();
            let stamp = stamp_of(now_ms).unwrap();
            let y = choose|y: TensorView| #[trigger] records_of(fresh, store.prefix(), b, y, stamp);
            assert(fresh.len() == w.jobs.len());
            assert(sink@ =~= before + fresh);
            let written = sink@.skip(start_sink.len() as int);
            assert(written =~= before.skip(start_sink.len() as int) + fresh);
            assert(sink@.subrange(0, start_sink.len() as int) =~= start_sink);
            assert forall|i: int| 0 <= i < written.len() implies (#[trigger] written[i]).key@
                == sink_key(store.prefix(), written[i].id@) by {
                if i >= n {
                    assert(written[i] == fresh[i - n]);
                    assert(fresh[i - n]@ == record_of(store.prefix(), b, y, i - n, stamp));
                } else {
                    assert(written[i] == before.skip(start_sink.len() as int)[i]);
                }
            }
            assert forall|i: int| 0 <= i < written.len() implies record_ids(written)[i]
                == start.pending_ids().subrange(0, written.len() as int)[i] by {
                if i >= n {
                    assert(written[i] == fresh[i - n]);
                    assert(fresh[i - n]@ == record_of(store.prefix(), b, y, i - n, stamp));
                    assert(b.ids[i - n] == w.jobs[i - n].id);
                    assert(w.jobs[i - n] == queue.pending[i - n].job);
                    assert(queue.pending[i - n] == start.pending[i]);
                } else {
                    assert(written[i] == before.skip(start_sink.len() as int)[i]);
                    assert(record_ids(before.skip(start_sink.len() as int))[i]
                        == start.pending_ids().subrange(0, n)[i]);
                }
            }
            assert(record_ids(written) =~= start.pending_ids().subrange(0, written.len() as int));
            assert forall|i: int| 0 <= i < written.len() implies exists|ms: u64| #[trigger]
                stamp_of(ms) == Some((#[trigger] written[i]).timestamp@) by {
                if i >= n {
                    assert(written[i] == fresh[i - n]);
                    assert(fresh[i - n]@ == record_of(store.prefix(), b, y, i - n, stamp));
                    assert(stamp_of(now_ms) == Some(written[i].timestamp@));
                } else {
                    assert(written[i] == before.skip(start_sink.len() as int)[i]);
                }
            }
            if pipeline.post is None && written.len() > 0 {
                let y = choose|y: TensorView|
                    {
                        &&& output_fits(b, y)
                        &&& #[trigger] records_of(fresh, store.prefix(), b, y, stamp)
                        &&& pipeline.post is None ==> engine.io().output_dims() == Some(y.dims)
                    };
                let dims = engine.io().output_dims().unwrap().skip(1);
                lemma_record_shape(fresh, store.prefix(), b, y, stamp);
                assert forall|i: int| 0 <= i < written.len() implies {
                    &&& (#[trigger] written[i]).shape@ == dims
                    &&& written[i].data@.len() <= MAX_RECORD_VALUES
                } by {
                    if i >= n {
                        assert(written[i] == fresh[i - n]);
                    } else {
                        assert(written[i] == before.skip(start_sink.len() as int)[i]);
                    }
                }
            }
        }
    }
}

/// The queue after `n` windows have been collected from it.
pub open spec fn after_windows(queue: QueueView, max_batch: nat, max_wait_ms: u64, n: nat) -> QueueView
    decreases n,
{
    if n == 0 {
        queue
    } else {
        after_windows(
            collect(queue, max_batch, max_wait_ms).queue,
            max_batch,
            max_wait_ms,
            (n - 1) as nat,
        )
    }
}

/// The jobs of the window that a worker collects after `n` earlier ones.
pub open spec fn window(cfg: Config, queue: QueueView, n: nat) -> Seq<JobView> {
    collect(
        after_windows(queue, effective_batch(cfg), cfg.queue.max_wait_ms, n),
        effective_batch(cfg),
        cfg.queue.max_wait_ms,
    ).jobs
}

/// The input specification of a configuration.
pub open spec fn spec_of(cfg: Config) -> InputSpec {
    InputSpec {
        batch: cfg.input.batch,
        channels: cfg.input.channels,
        height: cfg.input.height,
        width: cfg.input.width,
        dtype: cfg.input.dtype,
    }
}

/// The error with which a worker refuses the jobs of a window before any
/// transform or forward pass has a say, if it refuses them: the jobs do not
/// make a batch; or, where there is no preprocessor, the batch does not meet
/// the input specification, or not the executor's declared input shape.
pub open spec fn refusal(cfg: Config, io: ModelIoView, no_pre: bool, jobs: Seq<JobView>) -> Option<
    WorkerError,
> {
    let spec_n = cfg.input.batch as nat;
    match batch_failure(spec_n, jobs) {
        Some(e) => Some(WorkerError::Batch(e)),
        None => if !no_pre {
            None
        } else {
            let dims = batch_dims(spec_n, jobs);
            match spec_of(cfg).check(dims, single_precision_tag()) {
                Err(m) => Some(WorkerError::Spec(m)),
                Ok(_) => match io.input_verdict(dims) {
                    Err(e) => Some(WorkerError::Engine(e)),
                    Ok(_) => None,
                },
            }
        },
    }
}

/// `batch` is a batch that the jobs of a window make for a model of batch
/// size `spec_n`.
pub open spec fn batch_of(batch: Batch, spec_n: nat, jobs: Seq<JobView>) -> bool {
    &&& batch@.sized(spec_n)
    &&& batch@.padded()
    &&& batch@.carries(jobs)
    &&& batch@.tensor.dims == batch_dims(spec_n, jobs)
}

/// A batch of the jobs was taken through the pipeline with the outcome `r`.
pub open spec fn outcome_of<P: Preprocessor, Q: Postprocessor>(
    cfg: Config,
    io: ModelIoView,
    pipeline: Pipeline<P, Q>,
    prefix: Seq<char>,
    jobs: Seq<JobView>,
    r: Result<Vec<ResultRecord>, WorkerError>,
) -> bool {
    exists|batch: Batch, now_ms: u64|
        {
            &&& batch_of(batch, cfg.input.batch as nat, jobs)
            &&& #[trigger] processed(pipeline, spec_of(cfg), io, prefix, batch, now_ms, r)
        }
}

/// The window after `n` earlier ones is empty, or its jobs are not refused
/// and their batch went through the pipeline with success.
pub open spec fn passes<P: Preprocessor, Q: Postprocessor>(
    cfg: Config,
    io: ModelIoView,
    pipeline: Pipeline<P, Q>,
    prefix: Seq<char>,
    queue: QueueView,
    n: nat,
) -> bool {
    let jobs = window(cfg, queue, n);
    jobs.len() > 0 ==> {
        &&& refusal(cfg, io, pipeline.pre is None, jobs) is None
        &&& exists|records: Vec<ResultRecord>| #[trigger]
            outcome_of(cfg, io, pipeline, prefix, jobs, Ok(records))
    }
}

/// A worker that started on the queue `start` failed with `error` on the
/// window after `n` earlier ones: those passed and their jobs, `written` in
/// number, have their records; the failing window holds a job, its jobs
/// have left the queue, which is now `end`; and `error` is the failure of
/// the jobs to make a batch, or what the pipeline made of their batch.
pub open spec fn stopped_at<P: Preprocessor, Q: Postprocessor>(
    cfg: Config,
    io: ModelIoView,
    pipeline: Pipeline<P, Q>,
    prefix: Seq<char>,
    start: QueueView,
    end: QueueView,
    written: nat,
    n: nat,
    error: WorkerError,
) -> bool {
    let q = after_windows(start, effective_batch(cfg), cfg.queue.max_wait_ms, n);
    let jobs = window(cfg, start, n);
    &&& forall|m: nat| m < n ==> #[trigger] passes(cfg, io, pipeline, prefix, start, m)
    &&& q.pending == start.pending.skip(written as int)
    &&& jobs.len() > 0
    &&& end == collect(q, effective_batch(cfg), cfg.queue.max_wait_ms).queue
    &&& match refusal(cfg, io, pipeline.pre is None, jobs) {
        Some(e) => error == e,
        None => !(error is Batch),
    }
    &&& match batch_failure(cfg.input.batch as nat, jobs) {
        Some(e) => error == WorkerError::Batch(e),
        None => outcome_of(cfg, io, pipeline, prefix, jobs, Err(error)),
    }
}

/// A worker that started on the queue `start` failed with `error` on one of
/// its windows; see [`stopped_at`].
pub open spec fn stopped<P: Preprocessor, Q: Postprocessor>(
    cfg: Config,
    io: ModelIoView,
    pipeline: Pipeline<P, Q>,
    prefix: Seq<char>,
    start: QueueView,
    end: QueueView,
    written: nat,
    error: WorkerError,
) -> bool {
    exists|n: nat| #[trigger] stopped_at(cfg, io, pipeline, prefix, start, end, written, n, error)
}

/// One more window at the end: the queue after `n + 1` windows is what the
/// window after `n` leaves.
pub proof fn lemma_after_windows_step(queue: QueueView, max_batch: nat, max_wait_ms: u64, n: nat)
    ensures
        after_windows(queue, max_batch, max_wait_ms, n + 1) == collect(
            after_windows(queue, max_batch, max_wait_ms, n),
            max_batch,
            max_wait_ms,
        ).queue,
    decreases n,
{
    if n > 0 {
        lemma_after_windows_step(
            collect(queue, max_batch, max_wait_ms).queue,
            max_batch,
            max_wait_ms,
            (n - 1) as nat,
        );
    } else {
        assert(after_windows(
            collect(queue, max_batch, max_wait_ms).queue,
            max_batch,
            max_wait_ms,
            0,
        ) == collect(queue, max_batch, max_wait_ms).queue);
    }
}

/// Once a queue has no job left, no later window finds one.
pub proof fn lemma_windows_stay_empty(queue: QueueView, max_batch: nat, max_wait_ms: u64, n: nat, k: nat)
    requires
        after_windows(queue, max_batch, max_wait_ms, n).pending.len() == 0,
        k >= n,
    ensures
        after_windows(queue, max_batch, max_wait_ms, k).pending.len() == 0,
        collect(after_windows(queue, max_batch, max_wait_ms, k), max_batch, max_wait_ms).jobs.len()
            == 0,
    decreases k - n,
{
    if k > n {
        lemma_windows_stay_empty(queue, max_batch, max_wait_ms, n, (k - 1) as nat);
        lemma_after_windows_step(queue, max_batch, max_wait_ms, (k - 1) as nat);
        lemma_collect_takes_front(
            after_windows(queue, max_batch, max_wait_ms, (k - 1) as nat),
            max_batch,
            max_wait_ms,
        );
    }
    lemma_collect_takes_front(
        after_windows(queue, max_batch, max_wait_ms, k),
        max_batch,
        max_wait_ms,
    );
}

/// The records of a batch are those of its real jobs, one each and in their
/// order; where no job's id starts with `DUMMY-`, no record's id does, so
/// that nothing is stored for padding.
pub proof fn lemma_no_padding_written(
    records: Seq<ResultRecord>,
    prefix: Seq<char>,
    batch: BatchView,
    jobs: Seq<JobView>,
    y: TensorView,
    stamp: Seq<char>,
)
    requires
        batch.carries(jobs),
        records_of(records, prefix, batch, y, stamp),
        forall|i: int| 0 <= i < jobs.len() ==> !has_dummy_prefix(#[trigger] jobs[i].id),
    ensures
        records.len() == jobs.len(),
        forall|i: int|
            0 <= i < records.len() ==> {
                &&& (#[trigger] records[i]).id@ == jobs[i].id
                &&& records[i].key@ == sink_key(prefix, jobs[i].id)
                &&& !has_dummy_prefix(records[i].id@)
            },
{
    assert forall|i: int| 0 <= i < records.len() implies {
        &&& (#[trigger] records[i]).id@ == jobs[i].id
        &&& records[i].key@ == sink_key(prefix, jobs[i].id)
        &&& !has_dummy_prefix(records[i].id@)
    } by {
        assert(records[i]@ == record_of(prefix, batch, y, i, stamp));
        assert(batch.ids[i] == jobs[i].id);
    }
}

/// Every record of a batch has the shape of one sample of the output: the
/// output's shape without its leading axis.
pub proof fn lemma_record_shape(
    records: Seq<ResultRecord>,
    prefix: Seq<char>,
    batch: BatchView,
    y: TensorView,
    stamp: Seq<char>,
)
    requires
        records_of(records, prefix, batch, y, stamp),
    ensures
        forall|i: int| 0 <= i < records.len() ==> (#[trigger] records[i]).shape@ == y.dims.skip(1),
        forall|i: int|
            0 <= i < records.len() ==> (#[trigger] records[i]).data@.len() <= MAX_RECORD_VALUES,
{
    assert forall|i: int| 0 <= i < records.len() implies (#[trigger] records[i]).shape@
        == y.dims.skip(1) && records[i].data@.len() <= MAX_RECORD_VALUES by {
        assert(records[i]@ == record_of(prefix, batch, y, i, stamp));
    }
}

/// What a worker writes where it drains its queue: one record per job, in
/// the order of receipt, each under the prefix, a colon and the job's id;
/// and no id that starts with `DUMMY-`, where no job's id does.
pub proof fn lemma_one_record_per_job(
    submitted: Seq<Seq<char>>,
    written: Seq<ResultRecord>,
    prefix: Seq<char>,
)
    requires
        written.len() == submitted.len(),
        record_ids(written) == submitted.subrange(0, written.len() as int),
        keyed(written, prefix),
    ensures
        forall|i: int|
            0 <= i < submitted.len() ==> {
                &&& (#[trigger] written[i]).id@ == submitted[i]
                &&& written[i].key@ == sink_key(prefix, submitted[i])
            },
        (forall|i: int| 0 <= i < submitted.len() ==> !has_dummy_prefix(#[trigger] submitted[i]))
            ==> (forall|i: int| 0 <= i < written.len() ==> !has_dummy_prefix((#[trigger] written[i]).id@)),
{
    assert forall|i: int| 0 <= i < submitted.len() implies {
        &&& (#[trigger] written[i]).id@ == submitted[i]
        &&& written[i].key@ == sink_key(prefix, submitted[i])
    } by {
        assert(record_ids(written)[i] == submitted.subrange(0, written.len() as int)[i]);
    }
}

} // verus!
