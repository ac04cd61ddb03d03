//! The TensorRT backend.

use crate::engine::{
    declared_io, io_failure, Backend, Engine, EngineError, ModelIo, ModelIoView,
    Session,
};
use crate::tensor::Tensor;
use crate::types::Config;
use vstd::prelude::*;

verus! {

/// The CUDA device of a TensorRT executor: the given device, or device 0.
pub open spec fn trt_device(device_id: Option<usize>) -> usize {
    match device_id {
        Some(id) => id,
        None => 0,
    }
}

/// The CUDA device of a TensorRT executor.
pub fn device_for(device_id: Option<usize>) -> (r: usize)
    ensures
        r == trt_device(device_id),
{
    match device_id {
        Some(id) => id,
        None => 0,
    }
}

/// An executor that runs a TensorRT model.
pub struct TrtEngine<S: Session> {
    session: S,
    io: ModelIo,
    asked: Option<usize>,
    device: usize,
}

impl<S: Session> TrtEngine<S> {
    /// The CUDA device that the executor runs on.
    pub closed spec fn placement_view(&self) -> usize {
        self.device
    }

    /// An executor around a session of the configured model.
    pub fn new(cfg: &Config, device_id: Option<usize>, session: S) -> (r: Result<Self, EngineError>)
        ensures
            match r {
                Ok(engine) => {
                    &&& io_failure(cfg.model) is None
                    &&& engine.io() == declared_io(cfg.model)
                    &&& engine.device() == device_id
                    &&& engine.placement_view() == trt_device(device_id)
                },
                Err(e) => io_failure(cfg.model) == Some(e),
            },
    {
        let device = device_for(device_id);
        match ModelIo::from_config(&cfg.model) {
            Ok(io) => Ok(TrtEngine { session, io, asked: device_id, device }),
            Err(e) => Err(e),
        }
    }

    /// The CUDA device that the executor runs on.
    pub fn placement(&self) -> (r: usize)
        ensures
            r == self.placement_view(),
    {
        self.device
    }

    /// The declared inputs and outputs.
    pub fn model_io(&self) -> (r: &ModelIo)
        ensures
            r@ == self.io(),
    {
        &self.io
    }
}

impl<S: Session> Engine for TrtEngine<S> {
    closed spec fn io(&self) -> ModelIoView {
        self.io@
    }

    closed spec fn device(&self) -> Option<usize> {
        self.asked
    }

    fn device_id(&self) -> (r: Option<usize>) {
        self.asked
    }

    open spec fn kind(&self) -> Backend {
        Backend::TensorRt
    }

    fn name(&self) -> (r: &'static str) {
        Backend::TensorRt.name()
    }

    /// The elements that the session hands back are given the declared
    /// output shape, which they must fill exactly.
    fn infer_array(&mut self, input: Tensor) -> (r: Result<Tensor, EngineError>) {
        match self.io.check_input(&input) {
            Err(e) => {
                return Err(e);
            },
            Ok(()) => {},
        }
        match self.session.run(&input) {
            Err(message) => Err(EngineError::Session(message)),
            Ok(output) => self.io.shape_output(output),
        }
    }
}

} // verus!
