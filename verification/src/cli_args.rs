//! Subcommands of the command-line interface (the parser attributes are added where the
//! command line is parsed).
use vstd::prelude::*;

verus! {

/// `models` subcommands.
#[derive(Clone)]
pub enum ModelsCommand {
    /// Add a local model to the registry
    Add { path: String },
    /// List all registered models
    List,
    /// Inspect a registered model's metadata
    Inspect { id: String },
    /// Remove a registered model
    Remove { id: String },
}

/// `pull` subcommands.
#[derive(Clone)]
pub enum PullCommand {
    /// Pull a model from the Hugging Face Hub
    Hf { repo: String },
    /// Pull a model directly via an HTTP URL
    Url { url: String },
    /// Pull a model from local Ollama blobs
    Ollama { model: String },
}

/// `runtime` subcommands.
#[derive(Clone)]
pub enum RuntimeCommand {
    /// List all supported runtime modes
    Modes,
    /// Generate an execution plan for a registered model
    Plan { model: String },
}

/// Vector storage and search management
#[derive(Clone)]
pub enum VectorCommand {
    /// Show statistics for the vector storage
    Stats,
    /// Add a vector to storage
    Add {
        id: String,
        embedding: String,
        metadata: Option<String>,
        metadata_json: Option<String>,
        text: Option<String>,
    },
    /// Search for similar vectors
    Search { embedding: String, top_k: usize },
}

} // verus!
