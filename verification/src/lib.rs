//! Planning, caching and bookkeeping logic of a hardware-aware LLM runtime:
//! the load planner, the layer cache and streamer, the model registry, the router
//! and the helpers they rest on.
use vstd::prelude::*;

pub mod text;
pub mod hardware;
pub mod model_meta;
pub mod planner;
pub mod flexload;
pub mod gguf_layout;
pub mod registry;
pub mod routing;
pub mod memory;
pub mod env;
pub mod cli_args;
pub mod launch;
pub mod pull;
pub mod queue;
pub mod vector_slots;
