//! Configuration and the values that travel through the runtime.

use crate::tensor::{Tensor, TensorView};
use crate::text::{dummy_id, same_text};
use vstd::prelude::*;

verus! {

/// The shape and element type that the model expects of a whole batch.
#[derive(Debug, Clone)]
pub struct InputSpec {
    pub batch: usize,
    pub channels: usize,
    pub height: usize,
    pub width: usize,
    /// Element type tag, such as `"f32"`.
    pub dtype: String,
}

/// The first point in which a tensor departs from an [`InputSpec`].
#[derive(Debug, Clone, Copy, PartialEq, Eq)]
pub enum SpecMismatch {
    /// The tensor does not have four axes.
    Rank,
    /// The leading axis is not the batch size.
    Batch,
    /// The second axis is not the number of channels.
    Channels,
    /// The last two axes are not height and width.
    Spatial,
    /// The element type tag differs.
    Dtype,
}

impl InputSpec {
    /// What `validate` answers for a shape and an element type tag: the first
    /// mismatch in the order rank, batch, channels, height and width, tag.
    pub open spec fn check(&self, shape: Seq<usize>, dtype: Seq<char>) -> Result<(), SpecMismatch> {
        if shape.len() != 4 {
            Err(SpecMismatch::Rank)
        } else if shape[0] != self.batch {
            Err(SpecMismatch::Batch)
        } else if shape[1] != self.channels {
            Err(SpecMismatch::Channels)
        } else if shape[2] != self.height || shape[3] != self.width {
            Err(SpecMismatch::Spatial)
        } else if dtype != self.dtype@ {
            Err(SpecMismatch::Dtype)
        } else {
            Ok(())
        }
    }

    /// The shape `[batch, channels, height, width]` of a conforming tensor.
    pub open spec fn dims(&self) -> Seq<usize> {
        seq![self.batch, self.channels, self.height, self.width]
    }

    /// Checks a tensor's shape and element type tag against this
    /// specification.
    pub fn validate(&self, shape: &[usize], dtype: &str) -> (r: Result<(), SpecMismatch>)
        ensures
            r == self.check(shape@, dtype@),
            r is Ok <==> shape@ == self.dims() && dtype@ == self.dtype@,
    {
        proof {
            if shape@.len() == 4 && shape@[0] == self.batch && shape@[1] == self.channels
                && shape@[2] == self.height && shape@[3] == self.width {
                assert(shape@ =~= self.dims());
            }
        }
        if shape.len() != 4 {
            return Err(SpecMismatch::Rank);
        }
        if shape[0] != self.batch {
            return Err(SpecMismatch::Batch);
        }
        if shape[1] != self.channels {
            return Err(SpecMismatch::Channels);
        }
        if shape[2] != self.height || shape[3] != self.width {
            return Err(SpecMismatch::Spatial);
        }
        if !same_text(dtype, self.dtype.as_str()) {
            return Err(SpecMismatch::Dtype);
        }
        Ok(())
    }
}

/// Which backend runs the model, on which devices, and the model's declared
/// inputs and outputs.
#[derive(Debug, Clone)]
pub struct ModelCfg {
    pub backend: String,
    pub device: String,
    pub model_path: String,
    pub gpu_ids: Vec<usize>,
    pub input_names: Vec<String>,
    pub input_shapes: Vec<Vec<usize>>,
    pub output_names: Vec<String>,
    pub output_shapes: Vec<Vec<usize>>,
}

/// The expected shape and element type of a batch, as configured.
#[derive(Debug, Clone)]
pub struct InputCfg {
    pub batch: usize,
    pub channels: usize,
    pub height: usize,
    pub width: usize,
    pub dtype: String,
}

/// How jobs are gathered into batches.
#[derive(Debug, Clone)]
pub struct QueueCfg {
    /// Upper bound on the real jobs of one batch.
    pub max_batch: usize,
    /// Latency budget in milliseconds, counted from the first job of a batch.
    pub max_wait_ms: u64,
}

/// Where result records go.
#[derive(Debug, Clone)]
pub struct RedisCfg {
    pub url: String,
    pub out_prefix: String,
}

/// The whole configuration of a runtime.
#[derive(Debug, Clone)]
pub struct Config {
    pub model: ModelCfg,
    pub input: InputCfg,
    pub queue: QueueCfg,
    pub redis: RedisCfg,
}

impl Config {
    /// The input specification that the `input` section describes.
    pub fn input_spec(&self) -> (r: InputSpec)
        ensures
            r.batch == self.input.batch,
            r.channels == self.input.channels,
            r.height == self.input.height,
            r.width == self.input.width,
            r.dtype == self.input.dtype,
    {
        InputSpec {
            batch: self.input.batch,
            channels: self.input.channels,
            height: self.input.height,
            width: self.input.width,
            dtype: self.input.dtype.clone(),
        }
    }
}

/// One inference request: an id and a single-sample tensor, whose leading
/// axis has length one.
#[derive(Debug)]
pub struct Job {
    pub id: String,
    pub tensor: Tensor,
}

/// The mathematical value of a job.
pub struct JobView {
    pub id: Seq<char>,
    pub tensor: TensorView,
}

impl View for Job {
    type V = JobView;

    open spec fn view(&self) -> JobView {
        JobView { id: self.id@, tensor: self.tensor@ }
    }
}

impl Clone for Job {
    fn clone(&self) -> (r: Job)
        ensures
            r@ == self@,
    {
        Job { id: self.id.clone(), tensor: self.tensor.clone() }
    }
}

/// The values of a list of jobs, in order.
pub open spec fn job_views(jobs: Seq<Job>) -> Seq<JobView> {
    Seq::new(jobs.len(), |i: int| jobs[i]@)
}

/// The characters of each id of a list, in order.
pub open spec fn id_views(ids: Seq<String>) -> Seq<Seq<char>> {
    Seq::new(ids.len(), |i: int| ids[i]@)
}

/// Jobs stacked along the leading axis and padded to the model's batch size.
#[derive(Debug)]
pub struct Batch {
    /// One id per slice of the leading axis, padding included.
    pub ids: Vec<String>,
    /// The stacked samples.
    pub tensor: Tensor,
    /// How many of the leading slices are real jobs.
    pub actual_len: usize,
}

impl Clone for Batch {
    fn clone(&self) -> (r: Batch)
        ensures
            r@ == self@,
    {
        let mut ids: Vec<String> = Vec::new();
        let mut i: usize = 0;
        while i < self.ids.len()
            invariant
                i <= self.ids.len(),
                ids.len() == i,
                forall|k: int| 0 <= k < i ==> (#[trigger] ids[k])@ == self.ids[k]@,
            decreases self.ids.len() - i,
        {
            ids.push(self.ids[i].clone());
            i = i + 1;
        }
        assert(id_views(ids@) =~= id_views(self.ids@));
        Batch { ids, tensor: self.tensor.clone(), actual_len: self.actual_len }
    }
}

/// The mathematical value of a batch.
pub struct BatchView {
    pub ids: Seq<Seq<char>>,
    pub tensor: TensorView,
    pub actual_len: nat,
}

impl View for Batch {
    type V = BatchView;

    open spec fn view(&self) -> BatchView {
        BatchView {
            ids: id_views(self.ids@),
            tensor: self.tensor@,
            actual_len: self.actual_len as nat,
        }
    }
}

/// Every element of a run of elements is the zero bit pattern.
pub open spec fn all_zero(elems: Seq<u32>) -> bool {
    forall|j: int| 0 <= j < elems.len() ==> elems[j] == 0u32
}

impl BatchView {
    /// The shape invariants of an emitted batch for a model of batch size
    /// `spec_n`: one id per slice, `spec_n` slices, at least one real job.
    pub open spec fn sized(self, spec_n: nat) -> bool {
        &&& self.ids.len() == spec_n
        &&& self.tensor.dims.len() >= 1
        &&& self.tensor.dims[0] == spec_n
        &&& self.tensor.well_formed()
        &&& 1 <= self.actual_len <= spec_n
    }

    /// Everything behind the real jobs is padding: the id at 0-based index
    /// `i` is `DUMMY-` followed by `i + 1`, and the slice is zero.
    pub open spec fn padded(self) -> bool {
        forall|i: int|
            #![trigger self.ids[i]]
            #![trigger self.tensor.row(i)]
            self.actual_len <= i < self.ids.len() ==> {
                &&& self.ids[i] == dummy_id((i + 1) as nat)
                &&& all_zero(self.tensor.row(i))
            }
    }

    /// The real part of the batch is exactly `jobs`, in their order: ids and
    /// samples.
    pub open spec fn carries(self, jobs: Seq<JobView>) -> bool {
        &&& self.actual_len == jobs.len()
        &&& jobs.len() <= self.ids.len()
        &&& forall|i: int|
            #![trigger self.ids[i]]
            #![trigger self.tensor.row(i)]
            #![trigger jobs[i]]
            0 <= i < jobs.len() ==> {
                &&& self.ids[i] == jobs[i].id
                &&& self.tensor.row(i) == jobs[i].tensor.elems
            }
    }
}

} // verus!
