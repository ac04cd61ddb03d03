//! The ONNX Runtime backend.

use crate::engine::{
    declared_io, io_failure, is_gpu, is_gpu_tag, Backend, Engine, EngineError, ModelIo, ModelIoView,
    Session,
};
use crate::tensor::Tensor;
use crate::types::Config;
use vstd::prelude::*;

verus! {

/// The CUDA device that an ONNX session is placed on: none unless the
/// configured device reads `gpu`; then the given device, or device 0.
pub open spec fn onnx_cuda_device(device: Seq<char>, device_id: Option<usize>) -> Option<usize> {
    if is_gpu_tag(device) {
        match device_id {
            Some(id) => Some(id),
            None => Some(0usize),
        }
    } else {
        None
    }
}

/// The CUDA device that an ONNX session is placed on, if any.
pub fn cuda_device_for(device: &str, device_id: Option<usize>) -> (r: Option<usize>)
    ensures
        r == onnx_cuda_device(device@, device_id),
{
    if is_gpu(device) {
        match device_id {
            Some(id) => Some(id),
            None => Some(0),
        }
    } else {
        None
    }
}

/// An executor that runs an ONNX model.
pub struct OnnxEngine<S: Session> {
    session: S,
    io: ModelIo,
    asked: Option<usize>,
    cuda_device: Option<usize>,
}

impl<S: Session> OnnxEngine<S> {
    /// The CUDA device of the session, if it runs on one.
    pub closed spec fn cuda_view(&self) -> Option<usize> {
        self.cuda_device
    }

    /// An executor around a session of the configured model.
    pub fn new(cfg: &Config, device_id: Option<usize>, session: S) -> (r: Result<Self, EngineError>)
        ensures
            match r {
                Ok(engine) => {
                    &&& io_failure(cfg.model) is None
                    &&& engine.io() == declared_io(cfg.model)
                    &&& engine.device() == device_id
                    &&& engine.cuda_view() == onnx_cuda_device(cfg.model.device@, device_id)
                },
                Err(e) => io_failure(cfg.model) == Some(e),
            },
    {
        let cuda_device = cuda_device_for(cfg.model.device.as_str(), device_id);
        match ModelIo::from_config(&cfg.model) {
            Ok(io) => Ok(OnnxEngine { session, io, asked: device_id, cuda_device }),
            Err(e) => Err(e),
        }
    }

    /// The CUDA device of the session, if it runs on one.
    pub fn cuda_device(&self) -> (r: Option<usize>)
        ensures
            r == self.cuda_view(),
    {
        self.cuda_device
    }

    /// The declared inputs and outputs.
    pub fn model_io(&self) -> (r: &ModelIo)
        ensures
            r@ == self.io(),
    {
        &self.io
    }
}

impl<S: Session> Engine for OnnxEngine<S> {
    closed spec fn io(&self) -> ModelIoView {
        self.io@
    }

    closed spec fn device(&self) -> Option<usize> {
        self.asked
    }

    fn device_id(&self) -> (r: Option<usize>) {
        self.asked
    }

    open spec fn kind(&self) -> Backend {
        Backend::Onnx
    }

    fn name(&self) -> (r: &'static str) {
        Backend::Onnx.name()
    }

    /// The session's output must have exactly the declared output shape.
    fn infer_array(&mut self, input: Tensor) -> (r: Result<Tensor, EngineError>) {
        match self.io.check_input(&input) {
            Err(e) => {
                return Err(e);
            },
            Ok(()) => {},
        }
        match self.session.run(&input) {
            Err(message) => Err(EngineError::Session(message)),
            Ok(output) => self.io.check_output(output),
        }
    }
}

} // verus!
