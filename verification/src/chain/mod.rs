//! The engine that records one forward pass as a chain of dispatches.

pub mod answers;
pub mod api;
pub mod chat_template;
pub mod cli;
pub mod constants;
pub mod dispatch;
pub mod engine;
pub mod error;
pub mod flow;
pub mod generation;
pub mod gguf;
pub mod kv_cache;
pub mod memory;
pub mod mtp;
pub mod objects;
pub mod places;
pub mod probe;
pub mod reading;
pub mod replies;
pub mod shaders;
pub mod standard;
pub mod tools;
pub mod weights;
