//! The transform pipeline: an optional preprocessor before the model and an
//! optional postprocessor behind it.

use crate::tensor::Tensor;
use vstd::prelude::*;

verus! {

/// A transform that failed, with its message.
#[derive(Debug, Clone, PartialEq, Eq)]
pub struct TransformError {
    pub message: String,
}

/// A transform of the batch tensor before inference. It must be re-entrant:
/// several workers may call it at once.
pub trait Preprocessor {
    fn run(&self, input: Tensor) -> Result<Tensor, TransformError>;
}

/// A transform of the output tensor after inference. It must be re-entrant:
/// several workers may call it at once.
pub trait Postprocessor {
    fn run(&self, input: Tensor) -> Result<Tensor, TransformError>;
}

/// The preprocessor that hands its input back. It names the type of the
/// first stage where a pipeline has none.
#[derive(Debug, Clone, Copy)]
pub struct IdentityPre;

impl Preprocessor for IdentityPre {
    fn run(&self, input: Tensor) -> (r: Result<Tensor, TransformError>)
        ensures
            r is Ok,
            r.unwrap()@ == input@,
    {
        Ok(input)
    }
}

/// The postprocessor that hands its input back. It names the type of the
/// second stage where a pipeline has none.
#[derive(Debug, Clone, Copy)]
pub struct IdentityPost;

impl Postprocessor for IdentityPost {
    fn run(&self, input: Tensor) -> (r: Result<Tensor, TransformError>)
        ensures
            r is Ok,
            r.unwrap()@ == input@,
    {
        Ok(input)
    }
}

/// A preprocessor and a postprocessor; a stage that is left out is the
/// identity.
pub struct Pipeline<P: Preprocessor, Q: Postprocessor> {
    pub pre: Option<P>,
    pub post: Option<Q>,
}

impl<P: Preprocessor, Q: Postprocessor> Pipeline<P, Q> {
    /// A pipeline of the given stages.
    pub fn new(pre: Option<P>, post: Option<Q>) -> (r: Self)
        ensures
            r.pre == pre,
            r.post == post,
    {
        Pipeline { pre, post }
    }

    /// Applies the preprocessor: its `run` on `x`, or `x` itself without one.
    pub fn run_pre(&self, x: Tensor) -> (r: Result<Tensor, TransformError>)
        ensures
            self.pre is Some ==> call_ensures(P::run, (&self.pre->Some_0, x), r),
            self.pre is None ==> r is Ok && r.unwrap()@ == x@,
    {
        match &self.pre {
            Some(pre) => pre.run(x),
            None => Ok(x),
        }
    }

    /// Applies the postprocessor: its `run` on `x`, or `x` itself without one.
    pub fn run_post(&self, x: Tensor) -> (r: Result<Tensor, TransformError>)
        ensures
            self.post is Some ==> call_ensures(Q::run, (&self.post->Some_0, x), r),
            self.post is None ==> r is Ok && r.unwrap()@ == x@,
    {
        match &self.post {
            Some(post) => post.run(x),
            None => Ok(x),
        }
    }
}

} // verus!
