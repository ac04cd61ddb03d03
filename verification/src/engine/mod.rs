//! The executor interface, the backends behind it, and their selection by
//! configuration.
//!
//! A backend's forward pass is not part of this crate: it is a [`Session`]
//! that the caller provides. What this crate owns is everything around the
//! pass: which backend a configuration asks for, which device it runs on, and
//! the validation of what goes into the model and what comes out of it.

use crate::engine::onnx::OnnxEngine;
use crate::engine::tensorflow::TfEngine;
use crate::engine::tensorrt::TrtEngine;
use crate::engine::torch::TorchEngine;
use crate::tensor::{same_dims, Tensor, TensorView};
use crate::text::same_text;
use crate::types::{id_views, Config, ModelCfg};
use vstd::prelude::*;

pub mod onnx;
pub mod tensorflow;
pub mod tensorrt;
pub mod torch;

verus! {

/// Why an executor cannot be made, or an inference fails.
#[derive(Debug, Clone, PartialEq, Eq)]
pub enum EngineError {
    /// The backend tag is none of `onnx`, `tensorrt`, `torch`, `tensorflow`.
    UnsupportedBackend,
    /// There are not as many input names as input shapes.
    InputArity,
    /// There are not as many output names as output shapes.
    OutputArity,
    /// The configuration declares no input shape.
    NoInputDeclared,
    /// The configuration declares no output shape.
    NoOutputDeclared,
    /// The input does not have the declared input shape.
    InputShape,
    /// The output does not have, or does not fill, the declared output shape.
    OutputShape,
    /// The forward pass itself failed; the backend's message.
    Session(String),
}

/// The backends that a configuration can select.
#[derive(Debug, Clone, Copy, PartialEq, Eq)]
pub enum Backend {
    Onnx,
    TensorRt,
    Torch,
    TensorFlow,
}

/// The characters of `onnx`.
pub open spec fn onnx_tag() -> Seq<char> {
    "onnx"@
}

/// The characters of `tensorrt`.
pub open spec fn tensorrt_tag() -> Seq<char> {
    "tensorrt"@
}

/// The characters of `torch`.
pub open spec fn torch_tag() -> Seq<char> {
    "torch"@
}

/// The characters of `tensorflow`.
pub open spec fn tensorflow_tag() -> Seq<char> {
    "tensorflow"@
}

impl Backend {
    /// The tag that names this backend in a configuration.
    pub open spec fn tag(self) -> Seq<char> {
        match self {
            Backend::Onnx => onnx_tag(),
            Backend::TensorRt => tensorrt_tag(),
            Backend::Torch => torch_tag(),
            Backend::TensorFlow => tensorflow_tag(),
        }
    }

    /// The backend that a tag names, if any. Tags are compared exactly.
    pub open spec fn of_tag(tag: Seq<char>) -> Option<Backend> {
        if tag == onnx_tag() {
            Some(Backend::Onnx)
        } else if tag == tensorrt_tag() {
            Some(Backend::TensorRt)
        } else if tag == torch_tag() {
            Some(Backend::Torch)
        } else if tag == tensorflow_tag() {
            Some(Backend::TensorFlow)
        } else {
            None
        }
    }

    /// The backend that a tag names, if any.
    pub fn parse(tag: &str) -> (r: Option<Backend>)
        ensures
            r == Backend::of_tag(tag@),
    {
        if same_text(tag, "onnx") {
            Some(Backend::Onnx)
        } else if same_text(tag, "tensorrt") {
            Some(Backend::TensorRt)
        } else if same_text(tag, "torch") {
            Some(Backend::Torch)
        } else if same_text(tag, "tensorflow") {
            Some(Backend::TensorFlow)
        } else {
            None
        }
    }

    /// The short tag of this backend.
    pub fn name(self) -> (r: &'static str)
        ensures
            r@ == self.tag(),
    {
        match self {
            Backend::Onnx => "onnx",
            Backend::TensorRt => "tensorrt",
            Backend::Torch => "torch",
            Backend::TensorFlow => "tensorflow",
        }
    }
}

/// Whether a device tag reads `gpu`, in any mix of upper and lower case.
pub open spec fn is_gpu_tag(tag: Seq<char>) -> bool {
    &&& tag.len() == 3
    &&& (tag[0] == 'g' || tag[0] == 'G')
    &&& (tag[1] == 'p' || tag[1] == 'P')
    &&& (tag[2] == 'u' || tag[2] == 'U')
}

/// Whether a device tag reads `gpu`, in any mix of upper and lower case.
pub fn is_gpu(tag: &str) -> (r: bool)
    ensures
        r == is_gpu_tag(tag@),
{
    if tag.unicode_len() != 3 {
        return false;
    }
    let g = tag.get_char(0);
    let p = tag.get_char(1);
    let u = tag.get_char(2);
    (g == 'g' || g == 'G') && (p == 'p' || p == 'P') && (u == 'u' || u == 'U')
}

/// The axis lengths of each shape of a list, in order.
pub open spec fn shape_views(shapes: Seq<Vec<usize>>) -> Seq<Seq<usize>> {
    Seq::new(shapes.len(), |i: int| shapes[i]@)
}

/// The mathematical value of a [`ModelIo`]: the names and shapes of the
/// model's inputs and outputs.
pub struct ModelIoView {
    pub input_names: Seq<Seq<char>>,
    pub input_shapes: Seq<Seq<usize>>,
    pub output_names: Seq<Seq<char>>,
    pub output_shapes: Seq<Seq<usize>>,
}

impl ModelIoView {
    /// The shape that the model expects of its first input, if one is
    /// declared.
    pub open spec fn input_dims(self) -> Option<Seq<usize>> {
        if self.input_shapes.len() == 0 {
            None
        } else {
            Some(self.input_shapes[0])
        }
    }

    /// The shape that the model gives its first output, if one is declared.
    pub open spec fn output_dims(self) -> Option<Seq<usize>> {
        if self.output_shapes.len() == 0 {
            None
        } else {
            Some(self.output_shapes[0])
        }
    }

    /// What the check of an input of the given shape answers.
    pub open spec fn input_verdict(self, dims: Seq<usize>) -> Result<(), EngineError> {
        if self.input_shapes.len() == 0 {
            Err(EngineError::NoInputDeclared)
        } else if dims != self.input_shapes[0] {
            Err(EngineError::InputShape)
        } else {
            Ok(())
        }
    }
}

/// What a model section declares of the model's inputs and outputs.
pub open spec fn declared_io(model: ModelCfg) -> ModelIoView {
    ModelIoView {
        input_names: id_views(model.input_names@),
        input_shapes: shape_views(model.input_shapes@),
        output_names: id_views(model.output_names@),
        output_shapes: shape_views(model.output_shapes@),
    }
}

/// Why a model section does not describe inputs and outputs, if it does not.
pub open spec fn io_failure(model: ModelCfg) -> Option<EngineError> {
    if model.input_names@.len() != model.input_shapes@.len() {
        Some(EngineError::InputArity)
    } else if model.output_names@.len() != model.output_shapes@.len() {
        Some(EngineError::OutputArity)
    } else {
        None
    }
}

/// The names and shapes of a model's inputs and outputs, with as many names
/// as shapes on either side.
#[derive(Debug)]
pub struct ModelIo {
    input_names: Vec<String>,
    input_shapes: Vec<Vec<usize>>,
    output_names: Vec<String>,
    output_shapes: Vec<Vec<usize>>,
}

impl View for ModelIo {
    type V = ModelIoView;

    closed spec fn view(&self) -> ModelIoView {
        ModelIoView {
            input_names: id_views(self.input_names@),
            input_shapes: shape_views(self.input_shapes@),
            output_names: id_views(self.output_names@),
            output_shapes: shape_views(self.output_shapes@),
        }
    }
}

/// A copy of a list of strings.
pub fn copy_names(names: &Vec<String>) -> (r: Vec<String>)
    ensures
        id_views(r@) == id_views(names@),
{
    let mut out: Vec<String> = Vec::new();
    let mut i: usize = 0;
    while i < names.len()
        invariant
            i <= names.len(),
            out.len() == i,
            forall|k: int| 0 <= k < i ==> (#[trigger] out[k])@ == names[k]@,
        decreases names.len() - i,
    {
        out.push(names[i].clone());
        i = i + 1;
    }
    assert(id_views(out@) =~= id_views(names@));
    out
}

/// A copy of a list of shapes.
pub fn copy_shapes(shapes: &Vec<Vec<usize>>) -> (r: Vec<Vec<usize>>)
    ensures
        shape_views(r@) == shape_views(shapes@),
{
    let mut out: Vec<Vec<usize>> = Vec::new();
    let mut i: usize = 0;
    while i < shapes.len()
        invariant
            i <= shapes.len(),
            out.len() == i,
            forall|k: int| 0 <= k < i ==> (#[trigger] out[k])@ == shapes[k]@,
        decreases shapes.len() - i,
    {
        let shape = shapes[i].clone();
        assert(shape@ =~= shapes[i as int]@);
        out.push(shape);
        i = i + 1;
    }
    assert(shape_views(out@) =~= shape_views(shapes@));
    out
}

impl ModelIo {
    /// Takes the names and shapes of a model section, which must hold as many
    /// input names as input shapes, and as many output names as output
    /// shapes.
    pub fn from_config(model: &ModelCfg) -> (r: Result<ModelIo, EngineError>)
        ensures
            match r {
                Ok(io) => io_failure(*model) is None && io@ == declared_io(*model),
                Err(e) => io_failure(*model) == Some(e),
            },
    {
        if model.input_names.len() != model.input_shapes.len() {
            return Err(EngineError::InputArity);
        }
        if model.output_names.len() != model.output_shapes.len() {
            return Err(EngineError::OutputArity);
        }
        Ok(
            ModelIo {
                input_names: copy_names(&model.input_names),
                input_shapes: copy_shapes(&model.input_shapes),
                output_names: copy_names(&model.output_names),
                output_shapes: copy_shapes(&model.output_shapes),
            },
        )
    }

    /// The names of the model's inputs.
    pub fn input_names(&self) -> (r: &Vec<String>)
        ensures
            id_views(r@) == self@.input_names,
    {
        &self.input_names
    }

    /// The names of the model's outputs.
    pub fn output_names(&self) -> (r: &Vec<String>)
        ensures
            id_views(r@) == self@.output_names,
    {
        &self.output_names
    }

    /// The shapes of the model's inputs.
    pub fn input_shapes(&self) -> (r: &Vec<Vec<usize>>)
        ensures
            shape_views(r@) == self@.input_shapes,
    {
        &self.input_shapes
    }

    /// The shapes of the model's outputs.
    pub fn output_shapes(&self) -> (r: &Vec<Vec<usize>>)
        ensures
            shape_views(r@) == self@.output_shapes,
    {
        &self.output_shapes
    }

    /// Checks an input against the declared shape of the first input.
    pub fn check_input(&self, input: &Tensor) -> (r: Result<(), EngineError>)
        ensures
            r == self@.input_verdict(input@.dims),
    {
        if self.input_shapes.len() == 0 {
            return Err(EngineError::NoInputDeclared);
        }
        if !same_dims(input.shape(), &self.input_shapes[0]) {
            return Err(EngineError::InputShape);
        }
        Ok(())
    }

    /// Accepts an output that has exactly the declared shape of the first
    /// output, and hands it on unchanged.
    pub fn check_output(&self, output: Tensor) -> (r: Result<Tensor, EngineError>)
        ensures
            match r {
                Ok(t) => t@ == output@ && self@.output_dims() == Some(output@.dims),
                Err(e) => if self@.output_dims() is None {
                    e == EngineError::NoOutputDeclared
                } else {
                    e == EngineError::OutputShape && self@.output_dims() != Some(output@.dims)
                },
            },
    {
        if self.output_shapes.len() == 0 {
            return Err(EngineError::NoOutputDeclared);
        }
        if !same_dims(output.shape(), &self.output_shapes[0]) {
            return Err(EngineError::OutputShape);
        }
        Ok(output)
    }

    /// Gives the elements of a backend's output buffer the declared shape of
    /// the first output, which they must fill exactly.
    pub fn shape_output(&self, output: Tensor) -> (r: Result<Tensor, EngineError>)
        ensures
            match r {
                Ok(t) => {
                    &&& self@.output_dims() == Some(t@.dims)
                    &&& t@.elems == output@.elems
                },
                Err(e) => if self@.output_dims() is None {
                    e == EngineError::NoOutputDeclared
                } else {
                    &&& e == EngineError::OutputShape
                    &&& !(TensorView {
                        dims: self@.output_dims().unwrap(),
                        elems: output@.elems,
                    }).well_formed()
                },
            },
    {
        if self.output_shapes.len() == 0 {
            return Err(EngineError::NoOutputDeclared);
        }
        let shape = self.output_shapes[0].clone();
        assert(shape@ =~= self.output_shapes[0]@);
        let data = output.into_data();
        match Tensor::from_shape_vec(shape, data) {
            Ok(t) => Ok(t),
            Err(_) => Err(EngineError::OutputShape),
        }
    }
}

/// The forward pass of a loaded model, as its backend performs it. Nothing is
/// taken for granted of what it returns.
pub trait Session {
    /// Runs the model once on `input`; on failure, the backend's message.
    fn run(&mut self, input: &Tensor) -> Result<Tensor, String>;
}

/// A device-bound executor. It is not meant to be shared: whoever runs an
/// inference holds it exclusively.
pub trait Engine {
    /// The inputs and outputs that the executor's model declares.
    spec fn io(&self) -> ModelIoView;

    /// The backend behind this executor.
    spec fn kind(&self) -> Backend;

    /// The device that the executor was made for; `None` stands for no
    /// particular device.
    spec fn device(&self) -> Option<usize>;

    /// The device that the executor was made for.
    fn device_id(&self) -> (r: Option<usize>)
        ensures
            r == self.device(),
    ;

    /// The short tag of the backend.
    fn name(&self) -> (r: &'static str)
        ensures
            r@ == self.kind().tag(),
    ;

    /// Checks `input` against the declared input shape, runs one forward
    /// pass, and checks what comes out against the declared output shape.
    /// It fails with an input error exactly where the input is not in
    /// order.
    fn infer_array(&mut self, input: Tensor) -> (r: Result<Tensor, EngineError>)
        ensures
            final(self).io() == old(self).io(),
            final(self).kind() == old(self).kind(),
            final(self).device() == old(self).device(),
            old(self).io().input_verdict(input@.dims) is Err ==> r == Err::<Tensor, EngineError>(
                old(self).io().input_verdict(input@.dims)->Err_0,
            ),
            old(self).io().input_verdict(input@.dims) is Ok && r is Err ==> {
                &&& r->Err_0 != EngineError::InputShape
                &&& r->Err_0 != EngineError::NoInputDeclared
            },
            r is Ok ==> old(self).io().output_dims() == Some(r.unwrap()@.dims),
    ;
}

/// An executor of any of the backends.
pub enum AnyEngine<S: Session> {
    Onnx(OnnxEngine<S>),
    TensorRt(TrtEngine<S>),
    Torch(TorchEngine<S>),
    TensorFlow(TfEngine<S>),
}

impl<S: Session> Engine for AnyEngine<S> {
    open spec fn io(&self) -> ModelIoView {
        match self {
            AnyEngine::Onnx(e) => e.io(),
            AnyEngine::TensorRt(e) => e.io(),
            AnyEngine::Torch(e) => e.io(),
            AnyEngine::TensorFlow(e) => e.io(),
        }
    }

    open spec fn kind(&self) -> Backend {
        match self {
            AnyEngine::Onnx(_) => Backend::Onnx,
            AnyEngine::TensorRt(_) => Backend::TensorRt,
            AnyEngine::Torch(_) => Backend::Torch,
            AnyEngine::TensorFlow(_) => Backend::TensorFlow,
        }
    }

    open spec fn device(&self) -> Option<usize> {
        match self {
            AnyEngine::Onnx(e) => e.device(),
            AnyEngine::TensorRt(e) => e.device(),
            AnyEngine::Torch(e) => e.device(),
            AnyEngine::TensorFlow(e) => e.device(),
        }
    }

    fn device_id(&self) -> (r: Option<usize>) {
        match self {
            AnyEngine::Onnx(e) => e.device_id(),
            AnyEngine::TensorRt(e) => e.device_id(),
            AnyEngine::Torch(e) => e.device_id(),
            AnyEngine::TensorFlow(e) => e.device_id(),
        }
    }

    fn name(&self) -> (r: &'static str) {
        match self {
            AnyEngine::Onnx(e) => e.name(),
            AnyEngine::TensorRt(e) => e.name(),
            AnyEngine::Torch(e) => e.name(),
            AnyEngine::TensorFlow(e) => e.name(),
        }
    }

    fn infer_array(&mut self, input: Tensor) -> (r: Result<Tensor, EngineError>) {
        match self {
            AnyEngine::Onnx(e) => e.infer_array(input),
            AnyEngine::TensorRt(e) => e.infer_array(input),
            AnyEngine::Torch(e) => e.infer_array(input),
            AnyEngine::TensorFlow(e) => e.infer_array(input),
        }
    }
}

/// Why no executor can be made for a configuration, if none can: the backend
/// tag is unknown, or the model section is inconsistent.
pub open spec fn create_failure(cfg: Config) -> Option<EngineError> {
    if Backend::of_tag(cfg.model.backend@) is None {
        Some(EngineError::UnsupportedBackend)
    } else {
        io_failure(cfg.model)
    }
}

/// Makes executors as the configuration asks.
pub struct EngineFactory;

impl EngineFactory {
    /// The backend that the configuration selects.
    pub fn backend_for(cfg: &Config) -> (r: Result<Backend, EngineError>)
        ensures
            match r {
                Ok(b) => Backend::of_tag(cfg.model.backend@) == Some(b),
                Err(e) => e == EngineError::UnsupportedBackend && Backend::of_tag(
                    cfg.model.backend@,
                ) is None,
            },
    {
        match Backend::parse(cfg.model.backend.as_str()) {
            Some(b) => Ok(b),
            None => Err(EngineError::UnsupportedBackend),
        }
    }

    /// The executor of the configured backend on the given device, around a
    /// session of that backend.
    pub fn create_for_device<S: Session>(cfg: &Config, device_id: Option<usize>, session: S) -> (r:
        Result<AnyEngine<S>, EngineError>)
        ensures
            match r {
                Ok(engine) => {
                    &&& create_failure(*cfg) is None
                    &&& Backend::of_tag(cfg.model.backend@) == Some(engine.kind())
                    &&& engine.io() == declared_io(cfg.model)
                    &&& engine.device() == device_id
                },
                Err(e) => create_failure(*cfg) == Some(e),
            },
    {
        match Backend::parse(cfg.model.backend.as_str()) {
            None => Err(EngineError::UnsupportedBackend),
            Some(Backend::Onnx) => match OnnxEngine::new(cfg, device_id, session) {
                Ok(e) => Ok(AnyEngine::Onnx(e)),
                Err(e) => Err(e),
            },
            Some(Backend::TensorRt) => match TrtEngine::new(cfg, device_id, session) {
                Ok(e) => Ok(AnyEngine::TensorRt(e)),
                Err(e) => Err(e),
            },
            Some(Backend::Torch) => match TorchEngine::new(cfg, device_id, session) {
                Ok(e) => Ok(AnyEngine::Torch(e)),
                Err(e) => Err(e),
            },
            Some(Backend::TensorFlow) => match TfEngine::new(cfg, device_id, session) {
                Ok(e) => Ok(AnyEngine::TensorFlow(e)),
                Err(e) => Err(e),
            },
        }
    }
}

} // verus!
