//! Where result records are kept.

pub mod redis_store;
