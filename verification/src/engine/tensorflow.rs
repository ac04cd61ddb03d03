//! The TensorFlow backend.

use crate::engine::{
    declared_io, io_failure, Backend, Engine, EngineError, ModelIo, ModelIoView,
    Session,
};
use crate::tensor::Tensor;
use crate::types::Config;
use vstd::prelude::*;

verus! {

/// An executor that runs a TensorFlow model.
pub struct TfEngine<S: Session> {
    session: S,
    io: ModelIo,
    asked: Option<usize>,
}

impl<S: Session> TfEngine<S> {
    /// An executor around a session of the configured model.
    pub fn new(cfg: &Config, device_id: Option<usize>, session: S) -> (r: Result<Self, EngineError>)
        ensures
            match r {
                Ok(engine) => {
                    &&& io_failure(cfg.model) is None
                    &&& engine.io() == declared_io(cfg.model)
                    &&& engine.device() == device_id
                },
                Err(e) => io_failure(cfg.model) == Some(e),
            },
    {
        match ModelIo::from_config(&cfg.model) {
            Ok(io) => Ok(TfEngine { session, io, asked: device_id }),
            Err(e) => Err(e),
        }
    }

    /// The declared inputs and outputs.
    pub fn model_io(&self) -> (r: &ModelIo)
        ensures
            r@ == self.io(),
    {
        &self.io
    }
}

impl<S: Session> Engine for TfEngine<S> {
    closed spec fn io(&self) -> ModelIoView {
        self.io@
    }

    closed spec fn device(&self) -> Option<usize> {
        self.asked
    }

    fn device_id(&self) -> (r: Option<usize>) {
        self.asked
    }

    open spec fn kind(&self) -> Backend {
        Backend::TensorFlow
    }

    fn name(&self) -> (r: &'static str) {
        Backend::TensorFlow.name()
    }

    /// The elements that the session hands back are given the declared
    /// output shape, which they must fill exactly.
    fn infer_array(&mut self, input: Tensor) -> (r: Result<Tensor, EngineError>) {
        match self.io.check_input(&input) {
            Err(e) => {
                return Err(e);
            },
            Ok(()) => {},
        }
        match self.session.run(&input) {
            Err(message) => Err(EngineError::Session(message)),
            Ok(output) => self.io.shape_output(output),
        }
    }
}

} // verus!
