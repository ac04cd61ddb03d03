//! A backend-agnostic inference serving runtime: the data plane that turns a
//! stream of tensor-valued jobs into fixed-shape batches, checks them against
//! the model's declared shapes, and plans the per-job result records.
//!
//! Everything here is synchronous and free of I/O. Channels, timers, model
//! sessions and the connection to the result store live with the caller, which
//! reports events to the state machines of this crate and carries out what
//! they decide. For trials and tests the crate brings a queue on a virtual
//! clock, on which whole runs can be replayed.

pub mod batcher;
pub mod dispatch;
pub mod engine;
pub mod pipeline;
pub mod queue;
pub mod runtime;
pub mod storage;
pub mod tensor;
pub mod text;
pub mod types;
pub mod worker;

pub use crate::runtime::start_runtime;
