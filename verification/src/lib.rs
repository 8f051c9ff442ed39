//! Mixture-of-experts inference on an integrated GPU: the parts of the engine
//! that decide, lay out, parse and plan.

use vstd::prelude::*;

pub mod align;
pub mod bytes;
pub mod chain;
pub mod cli;
pub mod dataflow;
pub mod devices;
pub mod embedding;
pub mod generation;
pub mod gguf;
pub mod inference;
pub mod json;
pub mod memory;
pub mod messages;
pub mod passes;
pub mod pipeline;
pub mod placement;
pub mod quantize;
pub mod reading;
pub mod reference;
pub mod router;
pub mod sampling;
pub mod schedule;
pub mod server;
pub mod settings;
pub mod sort;
pub mod text;
pub mod tokenizer;
pub mod tui;
pub mod util;
pub mod vulkan;

verus! {

}
