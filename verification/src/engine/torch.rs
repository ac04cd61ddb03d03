//! The TorchScript backend.

use crate::engine::{
    declared_io, io_failure, is_gpu, is_gpu_tag, Backend, Engine, EngineError, ModelIo, ModelIoView,
    Session,
};
use crate::tensor::Tensor;
use crate::types::Config;
use vstd::prelude::*;

verus! {

/// Where a TorchScript module runs.
#[derive(Debug, Clone, Copy, PartialEq, Eq)]
pub enum TorchDevice {
    Cpu,
    /// The CUDA device of the given index.
    Cuda(usize),
}

/// The device of a TorchScript executor: the given CUDA device, or device 0,
/// where the configured device reads `gpu`; the CPU otherwise.
pub open spec fn torch_device(device: Seq<char>, device_id: Option<usize>) -> TorchDevice {
    if is_gpu_tag(device) {
        match device_id {
            Some(id) => TorchDevice::Cuda(id),
            None => TorchDevice::Cuda(0),
        }
    } else {
        TorchDevice::Cpu
    }
}

/// The device of a TorchScript executor.
pub fn device_for(device: &str, device_id: Option<usize>) -> (r: TorchDevice)
    ensures
        r == torch_device(device@, device_id),
{
    if is_gpu(device) {
        match device_id {
            Some(id) => TorchDevice::Cuda(id),
            None => TorchDevice::Cuda(0),
        }
    } else {
        TorchDevice::Cpu
    }
}

/// An executor that runs a TorchScript model.
pub struct TorchEngine<S: Session> {
    session: S,
    io: ModelIo,
    asked: Option<usize>,
    device: TorchDevice,
}

impl<S: Session> TorchEngine<S> {
    /// The device that the module runs on.
    pub closed spec fn placement_view(&self) -> TorchDevice {
        self.device
    }

    /// An executor around a session of the configured model.
    pub fn new(cfg: &Config, device_id: Option<usize>, session: S) -> (r: Result<Self, EngineError>)
        ensures
            match r {
                Ok(engine) => {
                    &&& io_failure(cfg.model) is None
                    &&& engine.io() == declared_io(cfg.model)
                    &&& engine.device() == device_id
                    &&& engine.placement_view() == torch_device(cfg.model.device@, device_id)
                },
                Err(e) => io_failure(cfg.model) == Some(e),
            },
    {
        let device = device_for(cfg.model.device.as_str(), device_id);
        match ModelIo::from_config(&cfg.model) {
            Ok(io) => Ok(TorchEngine { session, io, asked: device_id, device }),
            Err(e) => Err(e),
        }
    }

    /// The device that the module runs on.
    pub fn placement(&self) -> (r: TorchDevice)
        ensures
            r == self.placement_view(),
    {
        self.device
    }

    /// The declared inputs and outputs.
    pub fn model_io(&self) -> (r: &ModelIo)
        ensures
            r@ == self.io(),
    {
        &self.io
    }
}

impl<S: Session> Engine for TorchEngine<S> {
    closed spec fn io(&self) -> ModelIoView {
        self.io@
    }

    closed spec fn device(&self) -> Option<usize> {
        self.asked
    }

    fn device_id(&self) -> (r: Option<usize>) {
        self.asked
    }

    open spec fn kind(&self) -> Backend {
        Backend::Torch
    }

    fn name(&self) -> (r: &'static str) {
        Backend::Torch.name()
    }

    /// The elements that the session hands back are given the declared
    /// output shape, which they must fill exactly.
    fn infer_array(&mut self, input: Tensor) -> (r: Result<Tensor, EngineError>) {
        match self.io.check_input(&input) {
            Err(e) => {
                return Err(e);
            },
            Ok(()) => {},
        }
        match self.session.run(&input) {
            Err(message) => Err(EngineError::Session(message)),
            Ok(output) => self.io.shape_output(output),
        }
    }
}

} // verus!
