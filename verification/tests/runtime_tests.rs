use omniengine::dispatch::{dispatch, DispatchError, Dispatcher, MAIN_QUEUE_CAPACITY, WORKER_QUEUE_CAPACITY};
use omniengine::engine::onnx::OnnxEngine;
use omniengine::engine::{Engine, EngineError, Session};
use omniengine::pipeline::{IdentityPost, IdentityPre, Pipeline};
use omniengine::queue::JobQueue;
use omniengine::runtime::{check_config, demo_jobs, first_error, worker_devices, ConfigError, RuntimeError};
use omniengine::start_runtime;
use omniengine::storage::redis_store::RedisStorage;
use omniengine::tensor::{ShapeError, Tensor};
use omniengine::types::{Config, InputCfg, InputSpec, Job, ModelCfg, QueueCfg, RedisCfg};
use omniengine::worker::{ResultRecord, WorkerError};

/// A session that marks every output value with the number of its device.
struct Marked {
    device: f32,
    shape: Vec<usize>,
    fail: bool,
}

impl Session for Marked {
    fn run(&mut self, _input: &Tensor) -> Result<Tensor, String> {
        if self.fail {
            return Err("device lost".to_string());
        }
        let n: usize = self.shape.iter().product();
        Tensor::from_shape_vec(self.shape.clone(), vec![self.device.to_bits(); n])
            .map_err(|e| format!("{:?}", e))
    }
}

fn config(batch: usize, device: &str, gpu_ids: Vec<usize>) -> Config {
    Config {
        model: ModelCfg {
            backend: "onnx".to_string(),
            device: device.to_string(),
            model_path: "model.onnx".to_string(),
            gpu_ids,
            input_names: vec!["input".to_string()],
            input_shapes: vec![vec![batch, 3, 64, 64]],
            output_names: vec!["output".to_string()],
            output_shapes: vec![vec![batch, 10]],
        },
        input: InputCfg { batch, channels: 3, height: 64, width: 64, dtype: "f32".to_string() },
        queue: QueueCfg { max_batch: batch, max_wait_ms: 10 },
        redis: RedisCfg { url: "redis://127.0.0.1/".to_string(), out_prefix: "out".to_string() },
    }
}

fn engines(cfg: &Config, n: usize, failing: Option<usize>) -> Vec<OnnxEngine<Marked>> {
    let devices = worker_devices(&cfg.model);
    (0..n)
        .map(|d| {
            let session = Marked {
                device: d as f32,
                shape: cfg.model.output_shapes[0].clone(),
                fail: failing == Some(d),
            };
            let device = if d < devices.len() { devices[d] } else { Some(d) };
            OnnxEngine::new(cfg, device, session).unwrap()
        })
        .collect()
}

fn store() -> RedisStorage {
    RedisStorage::new(&"redis://127.0.0.1/", "out".to_string()).unwrap()
}

fn job(id: &str) -> Job {
    Job { id: id.to_string(), tensor: Tensor::zeros(vec![1, 3, 64, 64]).unwrap() }
}

fn main_queue(ids: &[&str]) -> JobQueue {
    let mut q = JobQueue::new();
    for id in ids {
        assert!(q.send(job(id)).is_ok());
    }
    q.close();
    q
}

fn keys(records: &[ResultRecord]) -> Vec<String> {
    records.iter().map(|r| r.key.clone()).collect()
}

fn drain_ids(q: &mut JobQueue) -> Vec<String> {
    let mut ids = Vec::new();
    while let Some(job) = q.recv() {
        ids.push(job.id);
    }
    ids
}

#[test]
fn queue_capacities() {
    assert_eq!(MAIN_QUEUE_CAPACITY, 1024);
    assert_eq!(WORKER_QUEUE_CAPACITY, 512);
}

#[test]
fn one_worker_per_gpu_id() {
    assert_eq!(worker_devices(&config(4, "gpu", vec![0, 2, 5]).model), vec![Some(0), Some(2), Some(5)]);
    assert_eq!(worker_devices(&config(4, "GPU", vec![1]).model), vec![Some(1)]);
    assert_eq!(worker_devices(&config(4, "gpu", vec![]).model), vec![None]);
    assert_eq!(worker_devices(&config(4, "cpu", vec![0, 1]).model), vec![None]);
    assert_eq!(worker_devices(&config(4, "gpu", vec![3, usize::MAX]).model), vec![Some(3), None]);
}

#[test]
fn dispatcher_counts_round_robin() {
    assert!(Dispatcher::new(0).is_none());
    let mut d = Dispatcher::new(3).unwrap();
    assert_eq!(d.workers(), 3);
    let routes: Vec<usize> = (0..7).map(|_| d.route()).collect();
    assert_eq!(routes, vec![0, 1, 2, 0, 1, 2, 0]);
    let mut one = Dispatcher::new(1).unwrap();
    assert_eq!((one.route(), one.route()), (0, 0));
}

#[test]
fn round_robin_fan_out() {
    let mut main = main_queue(&["j0", "j1", "j2", "j3", "j4", "j5"]);
    let mut workers = vec![JobQueue::new(), JobQueue::new()];
    assert_eq!(dispatch(&mut main, &mut workers), Ok(6));
    assert_eq!(main.len(), 0);
    assert!(workers.iter().all(|w| w.is_closed()));
    assert_eq!(drain_ids(&mut workers[0]), vec!["j0", "j2", "j4"]);
    assert_eq!(drain_ids(&mut workers[1]), vec!["j1", "j3", "j5"]);
}

#[test]
fn fan_out_over_three_workers_keeps_arrival_times() {
    let mut main = JobQueue::new();
    for (i, id) in ["a", "b", "c", "d", "e"].iter().enumerate() {
        assert!(main.send(job(id)).is_ok());
        main.pause(10 * (i as u64 + 1));
    }
    main.close();
    let mut workers = vec![JobQueue::new(), JobQueue::new(), JobQueue::new()];
    assert_eq!(dispatch(&mut main, &mut workers), Ok(5));
    assert_eq!(workers[0].len(), 2);
    assert_eq!(workers[1].len(), 2);
    assert_eq!(workers[2].len(), 1);
    assert_eq!(workers[0].recv().unwrap().id, "a");
    assert_eq!(workers[0].now(), 0);
    assert_eq!(workers[0].recv().unwrap().id, "d");
    assert_eq!(workers[0].now(), 60);
    assert_eq!(workers[2].recv().unwrap().id, "c");
    assert_eq!(workers[2].now(), 30);
    assert!(workers[2].recv().is_none());
    assert_eq!(workers[2].now(), 150);
}

#[test]
fn dispatch_needs_a_worker() {
    let mut main = main_queue(&["j0"]);
    let mut workers: Vec<JobQueue> = Vec::new();
    assert_eq!(dispatch(&mut main, &mut workers), Err(DispatchError::NoWorkers));
    assert_eq!(main.len(), 1);
}

#[test]
fn dispatch_of_a_closed_main_queue_closes_the_workers() {
    let mut main = main_queue(&[]);
    let mut workers = vec![JobQueue::new(), JobQueue::new()];
    assert_eq!(dispatch(&mut main, &mut workers), Ok(0));
    assert!(workers.iter().all(|w| w.is_closed() && w.len() == 0));
}

#[test]
fn first_error_is_the_first_in_worker_order() {
    assert_eq!(first_error::<WorkerError>(vec![]), Ok(()));
    assert_eq!(first_error::<WorkerError>(vec![Ok(()), Ok(())]), Ok(()));
    assert_eq!(first_error(vec![Ok(()), Err("late"), Err("later")]), Err("late"));
    let a = WorkerError::LengthMismatch;
    let b = WorkerError::Engine(EngineError::InputShape);
    assert_eq!(first_error(vec![Ok(()), Err(a.clone()), Err(b.clone())]), Err(a.clone()));
    assert_eq!(first_error(vec![Err(b.clone()), Ok(()), Err(a.clone())]), Err(b.clone()));
    assert_eq!(first_error(vec![Ok(()), Ok(()), Err(b.clone())]), Err(b));
}

#[test]
fn demo_jobs_fill_four_batches() {
    let spec = InputSpec { batch: 2, channels: 3, height: 4, width: 5, dtype: "f32".to_string() };
    let jobs = demo_jobs(&spec).unwrap();
    assert_eq!(jobs.len(), 8);
    assert_eq!(jobs[0].id, "job-0");
    assert_eq!(jobs[7].id, "job-7");
    for job in &jobs {
        assert_eq!(job.tensor.shape(), &[1, 3, 4, 5]);
        assert!(job.tensor.data().iter().all(|&b| b == 0));
    }
    let spec = InputSpec { batch: 3, channels: 1, height: 1, width: 1, dtype: "f32".to_string() };
    let jobs = demo_jobs(&spec).unwrap();
    assert_eq!(jobs.len(), 12);
    assert_eq!(jobs[11].id, "job-11");
    let none = InputSpec { batch: 0, channels: usize::MAX, height: 2, width: 1, dtype: "f32".to_string() };
    assert_eq!(demo_jobs(&none).unwrap().len(), 0);
    let huge = InputSpec { batch: 1, channels: usize::MAX, height: 2, width: 1, dtype: "f32".to_string() };
    assert_eq!(demo_jobs(&huge).err(), Some(ShapeError::Overflow));
    let many = InputSpec { batch: usize::MAX, channels: 1, height: 1, width: 1, dtype: "f32".to_string() };
    assert_eq!(demo_jobs(&many).err(), Some(ShapeError::Overflow));
}

#[test]
fn single_job_gets_one_sink_key() {
    let cfg = config(4, "cpu", vec![]);
    let mut engines = engines(&cfg, 1, None);
    let mut main = main_queue(&["j1"]);
    let pipeline: Pipeline<IdentityPre, IdentityPost> = Pipeline::new(None, None);
    let mut sink = Vec::new();
    assert_eq!(start_runtime(&cfg, &mut engines, &mut main, &store(), &pipeline, &mut sink), Ok(()));
    assert_eq!(keys(&sink), vec!["out:j1"]);
    assert!(sink.iter().all(|r| !r.key.starts_with("out:DUMMY-")));
    assert_eq!(sink[0].shape, vec![10]);
}

#[test]
fn full_batch_gets_four_sink_keys() {
    let cfg = config(4, "cpu", vec![]);
    let mut engines = engines(&cfg, 1, None);
    let mut main = main_queue(&["j0", "j1", "j2", "j3"]);
    let pipeline: Pipeline<IdentityPre, IdentityPost> = Pipeline::new(None, None);
    let mut sink = Vec::new();
    assert_eq!(start_runtime(&cfg, &mut engines, &mut main, &store(), &pipeline, &mut sink), Ok(()));
    assert_eq!(keys(&sink), vec!["out:j0", "out:j1", "out:j2", "out:j3"]);
}

#[test]
fn six_jobs_make_two_batches_of_writes() {
    let cfg = config(4, "cpu", vec![]);
    let mut engines = engines(&cfg, 1, None);
    let mut main = main_queue(&["a", "b", "c", "d", "e", "f"]);
    let pipeline: Pipeline<IdentityPre, IdentityPost> = Pipeline::new(None, None);
    let mut sink = Vec::new();
    assert_eq!(start_runtime(&cfg, &mut engines, &mut main, &store(), &pipeline, &mut sink), Ok(()));
    assert_eq!(keys(&sink), vec!["out:a", "out:b", "out:c", "out:d", "out:e", "out:f"]);
}

#[test]
fn two_workers_share_six_jobs() {
    let cfg = config(4, "gpu", vec![0, 1]);
    let mut engines = engines(&cfg, 2, None);
    let mut main = main_queue(&["j0", "j1", "j2", "j3", "j4", "j5"]);
    let pipeline: Pipeline<IdentityPre, IdentityPost> = Pipeline::new(None, None);
    let mut sink = Vec::new();
    assert_eq!(start_runtime(&cfg, &mut engines, &mut main, &store(), &pipeline, &mut sink), Ok(()));
    assert_eq!(sink.len(), 6);
    let by_worker = |d: f32| -> Vec<String> {
        sink.iter().filter(|r| f32::from_bits(r.data[0]) == d).map(|r| r.id.clone()).collect()
    };
    assert_eq!(by_worker(0.0), vec!["j0", "j2", "j4"]);
    assert_eq!(by_worker(1.0), vec!["j1", "j3", "j5"]);
    let mut all = keys(&sink);
    all.sort();
    assert_eq!(all, vec!["out:j0", "out:j1", "out:j2", "out:j3", "out:j4", "out:j5"]);
}

#[test]
fn closed_main_queue_means_a_clean_exit() {
    let cfg = config(4, "gpu", vec![0, 1]);
    let mut engines = engines(&cfg, 2, None);
    let mut main = main_queue(&[]);
    let pipeline: Pipeline<IdentityPre, IdentityPost> = Pipeline::new(None, None);
    let mut sink = Vec::new();
    assert_eq!(start_runtime(&cfg, &mut engines, &mut main, &store(), &pipeline, &mut sink), Ok(()));
    assert!(sink.is_empty());
}

#[test]
fn a_failing_worker_fails_the_run_after_the_others_finished() {
    let cfg = config(2, "gpu", vec![0, 1, 2]);
    let mut engines = engines(&cfg, 3, Some(1));
    let mut main = main_queue(&["j0", "j1", "j2", "j3", "j4", "j5"]);
    let pipeline: Pipeline<IdentityPre, IdentityPost> = Pipeline::new(None, None);
    let mut sink = Vec::new();
    let outcome = start_runtime(&cfg, &mut engines, &mut main, &store(), &pipeline, &mut sink);
    assert_eq!(
        outcome,
        Err(RuntimeError::Worker(WorkerError::Engine(EngineError::Session("device lost".to_string()))))
    );
    assert_eq!(keys(&sink), vec!["out:j0", "out:j3", "out:j2", "out:j5"]);
    assert_eq!(engines.len(), 3);
}

#[test]
fn mismatched_job_fails_its_worker_and_writes_nothing() {
    let cfg = config(4, "cpu", vec![]);
    let mut engines = engines(&cfg, 1, None);
    let mut main = JobQueue::new();
    assert!(main.send(job("j0")).is_ok());
    assert!(main
        .send(Job { id: "j1".to_string(), tensor: Tensor::zeros(vec![1, 3, 32, 32]).unwrap() })
        .is_ok());
    main.close();
    let pipeline: Pipeline<IdentityPre, IdentityPost> = Pipeline::new(None, None);
    let mut sink = Vec::new();
    let outcome = start_runtime(&cfg, &mut engines, &mut main, &store(), &pipeline, &mut sink);
    assert_eq!(
        outcome,
        Err(RuntimeError::Worker(WorkerError::Batch(omniengine::batcher::BatchError::ShapeMismatch)))
    );
    assert!(sink.is_empty());
}

#[test]
fn a_runtime_without_executors_does_nothing() {
    let cfg = config(4, "cpu", vec![]);
    let mut engines: Vec<OnnxEngine<Marked>> = Vec::new();
    let mut main = main_queue(&["j0"]);
    let pipeline: Pipeline<IdentityPre, IdentityPost> = Pipeline::new(None, None);
    let mut sink = Vec::new();
    let outcome = start_runtime(&cfg, &mut engines, &mut main, &store(), &pipeline, &mut sink);
    assert_eq!(outcome, Err(RuntimeError::NoWorkers));
    assert_eq!(main.len(), 1);
    assert!(sink.is_empty());
}

#[test]
fn a_consistent_configuration_passes() {
    assert_eq!(check_config(&config(4, "cpu", vec![])), Ok(()));
    assert_eq!(check_config(&config(1, "gpu", vec![0, 1])), Ok(()));
    let mut cfg = config(4, "cpu", vec![]);
    cfg.queue.max_batch = 9;
    assert_eq!(check_config(&cfg), Ok(()));
}

#[test]
fn check_config_names_the_first_fault() {
    let mut cfg = config(4, "cpu", vec![]);
    cfg.model.backend = "caffe".to_string();
    cfg.model.input_names.clear();
    assert_eq!(check_config(&cfg), Err(ConfigError::UnsupportedBackend));

    let mut cfg = config(4, "cpu", vec![]);
    cfg.model.input_names.clear();
    cfg.model.output_names.clear();
    assert_eq!(check_config(&cfg), Err(ConfigError::InputArity));

    let mut cfg = config(4, "cpu", vec![]);
    cfg.model.output_shapes.push(vec![4, 2]);
    cfg.input.height = 0;
    assert_eq!(check_config(&cfg), Err(ConfigError::OutputArity));

    for field in 0..4 {
        let mut cfg = config(4, "cpu", vec![]);
        match field {
            0 => cfg.input.batch = 0,
            1 => cfg.input.channels = 0,
            2 => cfg.input.height = 0,
            _ => cfg.input.width = 0,
        }
        cfg.input.dtype = "u8".to_string();
        assert_eq!(check_config(&cfg), Err(ConfigError::ZeroDimension));
    }

    let mut cfg = config(4, "cpu", vec![]);
    cfg.input.dtype = "u8".to_string();
    cfg.model.input_shapes = vec![vec![4, 3, 64]];
    assert_eq!(check_config(&cfg), Err(ConfigError::UnknownDtype));

    let mut cfg = config(4, "cpu", vec![]);
    cfg.model.input_shapes = vec![vec![8, 3, 64, 64]];
    cfg.queue.max_batch = 0;
    assert_eq!(check_config(&cfg), Err(ConfigError::InputShape));
    let mut cfg = config(4, "cpu", vec![]);
    cfg.model.input_names.clear();
    cfg.model.input_shapes.clear();
    assert_eq!(check_config(&cfg), Err(ConfigError::InputShape));

    let mut cfg = config(4, "cpu", vec![]);
    cfg.queue.max_batch = 0;
    assert_eq!(check_config(&cfg), Err(ConfigError::ZeroMaxBatch));
}

#[test]
fn a_faulty_configuration_starts_nothing() {
    let mut cfg = config(4, "cpu", vec![]);
    let mut engines = engines(&cfg, 1, None);
    cfg.model.backend = "caffe".to_string();
    let mut main = main_queue(&["j0", "j1"]);
    let pipeline: Pipeline<IdentityPre, IdentityPost> = Pipeline::new(None, None);
    let mut sink = Vec::new();
    let outcome = start_runtime(&cfg, &mut engines, &mut main, &store(), &pipeline, &mut sink);
    assert_eq!(outcome, Err(RuntimeError::Config(ConfigError::UnsupportedBackend)));
    assert!(sink.is_empty());
    assert_eq!(main.len(), 2);

    let mut cfg = config(4, "cpu", vec![]);
    cfg.model.input_names.push("second".to_string());
    let outcome = start_runtime(&cfg, &mut engines, &mut main, &store(), &pipeline, &mut sink);
    assert_eq!(outcome, Err(RuntimeError::Config(ConfigError::InputArity)));
    let mut cfg = config(4, "cpu", vec![]);
    cfg.model.output_shapes.clear();
    let outcome = start_runtime(&cfg, &mut engines, &mut main, &store(), &pipeline, &mut sink);
    assert_eq!(outcome, Err(RuntimeError::Config(ConfigError::OutputArity)));
    assert!(sink.is_empty());
    assert_eq!(main.len(), 2);
}

#[test]
fn the_workers_are_those_of_the_configuration() {
    let pipeline: Pipeline<IdentityPre, IdentityPost> = Pipeline::new(None, None);
    // two device indices ask for two workers
    let cfg = config(4, "gpu", vec![0, 1]);
    for n in [1, 3] {
        let mut some = engines(&cfg, n, None);
        let mut main = main_queue(&["j0"]);
        let mut sink = Vec::new();
        let outcome = start_runtime(&cfg, &mut some, &mut main, &store(), &pipeline, &mut sink);
        assert_eq!(outcome, Err(RuntimeError::WorkerCount));
        assert!(sink.is_empty());
        assert_eq!(main.len(), 1);
    }
    // the device indices count only with the device `gpu`
    let cfg = config(4, "cpu", vec![0, 1]);
    let mut two = engines(&cfg, 2, None);
    let mut main = main_queue(&["j0"]);
    let mut sink = Vec::new();
    let outcome = start_runtime(&cfg, &mut two, &mut main, &store(), &pipeline, &mut sink);
    assert_eq!(outcome, Err(RuntimeError::WorkerCount));
    let mut one = engines(&cfg, 1, None);
    assert_eq!(start_runtime(&cfg, &mut one, &mut main, &store(), &pipeline, &mut sink), Ok(()));
    assert_eq!(sink.len(), 1);
}

#[test]
fn the_first_failing_worker_gives_the_error() {
    let cfg = config(2, "gpu", vec![0, 1, 2]);
    let mut engines = engines(&cfg, 3, Some(2));
    let mut main = JobQueue::new();
    // the second worker gets a job of another shape, the third a session that fails
    for (i, shape) in [[1usize, 3, 64, 64], [1, 3, 32, 32], [1, 3, 64, 64]].iter().enumerate() {
        let job = Job { id: format!("j{}", i), tensor: Tensor::zeros(shape.to_vec()).unwrap() };
        assert!(main.send(job).is_ok());
    }
    assert!(main.send(job("j3")).is_ok());
    assert!(main.send(job("j4")).is_ok());
    main.close();
    let pipeline: Pipeline<IdentityPre, IdentityPost> = Pipeline::new(None, None);
    let mut sink = Vec::new();
    let outcome = start_runtime(&cfg, &mut engines, &mut main, &store(), &pipeline, &mut sink);
    assert_eq!(
        outcome,
        Err(RuntimeError::Worker(WorkerError::Batch(omniengine::batcher::BatchError::ShapeMismatch)))
    );
    assert_eq!(keys(&sink), vec!["out:j0", "out:j3"]);
}

#[test]
fn each_executor_must_be_made_for_the_device_of_its_worker() {
    let pipeline: Pipeline<IdentityPre, IdentityPost> = Pipeline::new(None, None);
    let cfg = config(4, "gpu", vec![3, 5]);
    let session = |d: usize| Marked { device: d as f32, shape: vec![4, 10], fail: false };
    let mut swapped = vec![
        OnnxEngine::new(&cfg, Some(5), session(0)).unwrap(),
        OnnxEngine::new(&cfg, Some(3), session(1)).unwrap(),
    ];
    let mut main = main_queue(&["j0", "j1"]);
    let mut sink = Vec::new();
    let outcome = start_runtime(&cfg, &mut swapped, &mut main, &store(), &pipeline, &mut sink);
    assert_eq!(outcome, Err(RuntimeError::WorkerDevice));
    assert!(sink.is_empty());
    assert_eq!(main.len(), 2);

    let mut right = vec![
        OnnxEngine::new(&cfg, Some(3), session(0)).unwrap(),
        OnnxEngine::new(&cfg, Some(5), session(1)).unwrap(),
    ];
    assert_eq!(start_runtime(&cfg, &mut right, &mut main, &store(), &pipeline, &mut sink), Ok(()));
    assert_eq!(right[0].cuda_device(), Some(3));
    assert_eq!(right[1].cuda_device(), Some(5));
    assert_eq!(sink.len(), 2);

    let cpu = config(4, "cpu", vec![]);
    let mut on_gpu = vec![OnnxEngine::new(&cpu, Some(0), session(0)).unwrap()];
    let mut main = main_queue(&["j0"]);
    let outcome = start_runtime(&cpu, &mut on_gpu, &mut main, &store(), &pipeline, &mut sink);
    assert_eq!(outcome, Err(RuntimeError::WorkerDevice));
}
