use omniengine::engine::onnx::OnnxEngine;
use omniengine::engine::tensorflow::TfEngine;
use omniengine::engine::tensorrt::TrtEngine;
use omniengine::engine::torch::{TorchDevice, TorchEngine};
use omniengine::engine::{
    is_gpu, onnx, tensorrt, torch, AnyEngine, Backend, Engine, EngineError, EngineFactory, ModelIo, Session,
};
use omniengine::tensor::Tensor;
use omniengine::types::{Config, InputCfg, ModelCfg, QueueCfg, RedisCfg};

/// A session that answers every input with a fixed output.
struct Fixed {
    shape: Vec<usize>,
    value: f32,
    calls: usize,
}

impl Fixed {
    fn new(shape: &[usize], value: f32) -> Fixed {
        Fixed { shape: shape.to_vec(), value, calls: 0 }
    }
}

impl Session for Fixed {
    fn run(&mut self, _input: &Tensor) -> Result<Tensor, String> {
        self.calls += 1;
        let n: usize = self.shape.iter().product();
        Tensor::from_shape_vec(self.shape.clone(), vec![self.value.to_bits(); n])
            .map_err(|e| format!("{:?}", e))
    }
}

/// A session that always fails.
struct Broken;

impl Session for Broken {
    fn run(&mut self, _input: &Tensor) -> Result<Tensor, String> {
        Err("out of memory".to_string())
    }
}

fn config(backend: &str, device: &str) -> Config {
    Config {
        model: ModelCfg {
            backend: backend.to_string(),
            device: device.to_string(),
            model_path: "model.bin".to_string(),
            gpu_ids: vec![0, 1],
            input_names: vec!["input".to_string()],
            input_shapes: vec![vec![4, 3, 8, 8]],
            output_names: vec!["output".to_string()],
            output_shapes: vec![vec![4, 10]],
        },
        input: InputCfg { batch: 4, channels: 3, height: 8, width: 8, dtype: "f32".to_string() },
        queue: QueueCfg { max_batch: 4, max_wait_ms: 10 },
        redis: RedisCfg { url: "redis://127.0.0.1/".to_string(), out_prefix: "out".to_string() },
    }
}

fn input() -> Tensor {
    Tensor::zeros(vec![4, 3, 8, 8]).unwrap()
}

#[test]
fn backend_tags_are_compared_exactly() {
    assert_eq!(Backend::parse("onnx"), Some(Backend::Onnx));
    assert_eq!(Backend::parse("tensorrt"), Some(Backend::TensorRt));
    assert_eq!(Backend::parse("torch"), Some(Backend::Torch));
    assert_eq!(Backend::parse("tensorflow"), Some(Backend::TensorFlow));
    assert_eq!(Backend::parse("ONNX"), None);
    assert_eq!(Backend::parse("onnx "), None);
    assert_eq!(Backend::parse(""), None);
    assert_eq!(Backend::parse("caffe"), None);
    for b in [Backend::Onnx, Backend::TensorRt, Backend::Torch, Backend::TensorFlow] {
        assert_eq!(Backend::parse(b.name()), Some(b));
    }
    assert_eq!(Backend::Onnx.name(), "onnx");
    assert_eq!(Backend::TensorRt.name(), "tensorrt");
    assert_eq!(Backend::Torch.name(), "torch");
    assert_eq!(Backend::TensorFlow.name(), "tensorflow");
}

#[test]
fn device_tag_is_compared_without_case() {
    for tag in ["gpu", "GPU", "Gpu", "gPu", "gpU"] {
        assert!(is_gpu(tag), "{}", tag);
    }
    for tag in ["cpu", "", "gp", "gpus", "g pu", "tpu", "ɡpu"] {
        assert!(!is_gpu(tag), "{}", tag);
    }
}

#[test]
fn factory_selects_by_backend_tag() {
    assert_eq!(EngineFactory::backend_for(&config("onnx", "cpu")), Ok(Backend::Onnx));
    assert_eq!(EngineFactory::backend_for(&config("torch", "cpu")), Ok(Backend::Torch));
    assert_eq!(
        EngineFactory::backend_for(&config("mxnet", "cpu")),
        Err(EngineError::UnsupportedBackend)
    );
    for (tag, name) in [("onnx", "onnx"), ("tensorrt", "tensorrt"), ("torch", "torch"), ("tensorflow", "tensorflow")] {
        let engine =
            EngineFactory::create_for_device(&config(tag, "cpu"), None, Fixed::new(&[4, 10], 0.5)).unwrap();
        assert_eq!(engine.name(), name);
    }
    let e = EngineFactory::create_for_device(&config("mxnet", "cpu"), None, Fixed::new(&[4, 10], 0.5));
    assert!(matches!(e, Err(EngineError::UnsupportedBackend)));
    let mut bad = config("mxnet", "cpu");
    bad.model.input_names.clear();
    let e = EngineFactory::create_for_device(&bad, None, Fixed::new(&[4, 10], 0.5));
    assert!(matches!(e, Err(EngineError::UnsupportedBackend)));
}

#[test]
fn factory_makes_the_variant_of_the_backend() {
    let e = EngineFactory::create_for_device(&config("onnx", "cpu"), None, Broken).unwrap();
    assert!(matches!(e, AnyEngine::Onnx(_)));
    let e = EngineFactory::create_for_device(&config("tensorrt", "gpu"), Some(1), Broken).unwrap();
    assert!(matches!(e, AnyEngine::TensorRt(_)));
    let e = EngineFactory::create_for_device(&config("torch", "gpu"), Some(1), Broken).unwrap();
    assert!(matches!(e, AnyEngine::Torch(_)));
    let e = EngineFactory::create_for_device(&config("tensorflow", "cpu"), None, Broken).unwrap();
    assert!(matches!(e, AnyEngine::TensorFlow(_)));
}

#[test]
fn names_and_shapes_must_pair_up() {
    let mut cfg = config("tensorflow", "cpu");
    cfg.model.input_names.push("second".to_string());
    assert_eq!(TfEngine::new(&cfg, None, Broken).err(), Some(EngineError::InputArity));
    assert_eq!(OnnxEngine::new(&cfg, None, Broken).err(), Some(EngineError::InputArity));
    assert_eq!(TrtEngine::new(&cfg, None, Broken).err(), Some(EngineError::InputArity));
    assert_eq!(TorchEngine::new(&cfg, None, Broken).err(), Some(EngineError::InputArity));
    assert_eq!(ModelIo::from_config(&cfg.model).err(), Some(EngineError::InputArity));

    let mut cfg = config("tensorflow", "cpu");
    cfg.model.output_shapes.push(vec![4, 2]);
    assert_eq!(TfEngine::new(&cfg, None, Broken).err(), Some(EngineError::OutputArity));
    assert_eq!(ModelIo::from_config(&cfg.model).err(), Some(EngineError::OutputArity));

    let mut cfg = config("tensorflow", "cpu");
    cfg.model.input_names.clear();
    cfg.model.output_shapes.clear();
    assert_eq!(TfEngine::new(&cfg, None, Broken).err(), Some(EngineError::InputArity));
}

#[test]
fn model_io_copies_the_model_section() {
    let cfg = config("onnx", "cpu");
    let io = ModelIo::from_config(&cfg.model).unwrap();
    assert_eq!(io.input_names(), &cfg.model.input_names);
    assert_eq!(io.input_shapes(), &cfg.model.input_shapes);
    assert_eq!(io.output_names(), &cfg.model.output_names);
    assert_eq!(io.output_shapes(), &cfg.model.output_shapes);
    let engine = TfEngine::new(&cfg, Some(3), Broken).unwrap();
    assert_eq!(engine.model_io().output_shapes(), &vec![vec![4usize, 10]]);
    assert_eq!(engine.device_id(), Some(3));
}

#[test]
fn devices_follow_the_configuration() {
    let engine = OnnxEngine::new(&config("onnx", "cpu"), Some(1), Broken).unwrap();
    assert_eq!(engine.cuda_device(), None);
    let engine = OnnxEngine::new(&config("onnx", "GPU"), Some(1), Broken).unwrap();
    assert_eq!(engine.cuda_device(), Some(1));
    let engine = OnnxEngine::new(&config("onnx", "gpu"), None, Broken).unwrap();
    assert_eq!(engine.cuda_device(), Some(0));

    let engine = TorchEngine::new(&config("torch", "cpu"), Some(1), Broken).unwrap();
    assert_eq!(engine.placement(), TorchDevice::Cpu);
    assert_eq!(engine.device_id(), Some(1));
    let engine = TorchEngine::new(&config("torch", "Gpu"), Some(1), Broken).unwrap();
    assert_eq!(engine.placement(), TorchDevice::Cuda(1));
    let engine = TorchEngine::new(&config("torch", "gpu"), None, Broken).unwrap();
    assert_eq!(engine.placement(), TorchDevice::Cuda(0));
    assert_eq!(engine.device_id(), None);
    let engine = TorchEngine::new(&config("torch", "tpu"), Some(1), Broken).unwrap();
    assert_eq!(engine.placement(), TorchDevice::Cpu);

    let engine = TrtEngine::new(&config("tensorrt", "gpu"), Some(2), Broken).unwrap();
    assert_eq!(engine.placement(), 2);
    assert_eq!(engine.device_id(), Some(2));
    let engine = TrtEngine::new(&config("tensorrt", "gpu"), None, Broken).unwrap();
    assert_eq!(engine.placement(), 0);
    assert_eq!(engine.device_id(), None);

    let engine = EngineFactory::create_for_device(&config("onnx", "gpu"), Some(4), Broken).unwrap();
    assert_eq!(engine.device_id(), Some(4));
    let engine = EngineFactory::create_for_device(&config("tensorflow", "cpu"), None, Broken).unwrap();
    assert_eq!(engine.device_id(), None);
}

#[test]
fn inference_checks_the_input_shape() {
    let cfg = config("onnx", "cpu");
    let mut engine = OnnxEngine::new(&cfg, None, Fixed::new(&[4, 10], 1.0)).unwrap();
    let wrong = Tensor::zeros(vec![4, 3, 8, 9]).unwrap();
    assert_eq!(engine.infer_array(wrong).err(), Some(EngineError::InputShape));
    let wrong = Tensor::zeros(vec![4, 3, 64]).unwrap();
    assert_eq!(engine.infer_array(wrong).err(), Some(EngineError::InputShape));
    let y = engine.infer_array(input()).unwrap();
    assert_eq!(y.shape(), &[4, 10]);
    assert!(y.data().iter().all(|&b| f32::from_bits(b) == 1.0));

    let mut tf = TfEngine::new(&cfg, None, Fixed::new(&[4, 10], 1.0)).unwrap();
    let wrong = Tensor::zeros(vec![2, 3, 8, 8]).unwrap();
    assert_eq!(tf.infer_array(wrong).err(), Some(EngineError::InputShape));
}

#[test]
fn inference_checks_the_output_shape() {
    let cfg = config("onnx", "cpu");
    let mut engine = OnnxEngine::new(&cfg, None, Fixed::new(&[4, 11], 1.0)).unwrap();
    assert_eq!(engine.infer_array(input()).err(), Some(EngineError::OutputShape));
    // forty values in another arrangement are not the declared output
    let mut engine = OnnxEngine::new(&cfg, None, Fixed::new(&[40], 1.0)).unwrap();
    assert_eq!(engine.infer_array(input()).err(), Some(EngineError::OutputShape));
}

#[test]
fn flat_outputs_are_given_the_declared_shape() {
    let cfg = config("tensorflow", "cpu");
    let mut tf = TfEngine::new(&cfg, None, Fixed::new(&[40], 2.0)).unwrap();
    let y = tf.infer_array(input()).unwrap();
    assert_eq!(y.shape(), &[4, 10]);
    assert_eq!(y.data().len(), 40);
    assert!(y.data().iter().all(|&b| f32::from_bits(b) == 2.0));
    let mut torch = TorchEngine::new(&cfg, None, Fixed::new(&[40], 2.0)).unwrap();
    assert_eq!(torch.infer_array(input()).unwrap().shape(), &[4, 10]);
    let mut trt = TrtEngine::new(&cfg, None, Fixed::new(&[40], 2.0)).unwrap();
    assert_eq!(trt.infer_array(input()).unwrap().shape(), &[4, 10]);

    let mut tf = TfEngine::new(&cfg, None, Fixed::new(&[39], 2.0)).unwrap();
    assert_eq!(tf.infer_array(input()).err(), Some(EngineError::OutputShape));
}

#[test]
fn a_failing_session_fails_the_inference() {
    let cfg = config("torch", "cpu");
    let mut engine = TorchEngine::new(&cfg, None, Broken).unwrap();
    assert_eq!(
        engine.infer_array(input()).err(),
        Some(EngineError::Session("out of memory".to_string()))
    );
}

#[test]
fn undeclared_shapes_are_an_error() {
    let mut cfg = config("onnx", "cpu");
    cfg.model.input_names.clear();
    cfg.model.input_shapes.clear();
    let mut engine = OnnxEngine::new(&cfg, None, Fixed::new(&[4, 10], 1.0)).unwrap();
    assert_eq!(engine.infer_array(input()).err(), Some(EngineError::NoInputDeclared));

    let mut cfg = config("onnx", "cpu");
    cfg.model.output_names.clear();
    cfg.model.output_shapes.clear();
    let mut engine = OnnxEngine::new(&cfg, None, Fixed::new(&[4, 10], 1.0)).unwrap();
    assert_eq!(engine.infer_array(input()).err(), Some(EngineError::NoOutputDeclared));
    let mut engine = TfEngine::new(&cfg, None, Fixed::new(&[4, 10], 1.0)).unwrap();
    assert_eq!(engine.infer_array(input()).err(), Some(EngineError::NoOutputDeclared));
}

#[test]
fn placement_is_decided_before_a_session_is_opened() {
    assert_eq!(onnx::cuda_device_for("cpu", Some(3)), None);
    assert_eq!(onnx::cuda_device_for("gpu", Some(3)), Some(3));
    assert_eq!(onnx::cuda_device_for("GPU", None), Some(0));
    assert_eq!(torch::device_for("cpu", Some(3)), TorchDevice::Cpu);
    assert_eq!(torch::device_for("gpu", Some(3)), TorchDevice::Cuda(3));
    assert_eq!(torch::device_for("gpu", None), TorchDevice::Cuda(0));
    assert_eq!(torch::device_for("other", Some(3)), TorchDevice::Cpu);
    assert_eq!(tensorrt::device_for(Some(7)), 7);
    assert_eq!(tensorrt::device_for(None), 0);
}
