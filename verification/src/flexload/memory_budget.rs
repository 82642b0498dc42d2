//! Budgets and plan of a streaming run.
use vstd::prelude::*;
use crate::flexload::device_stage::StageDevice;
use crate::flexload::layer_cache::CachePolicy;

verus! {

/// Limits and policies of the streamer.
#[derive(Debug, Clone)]
pub struct FlexLoadConfig {
    pub prefetch_ahead_count: usize,
    pub max_ram_bytes: u64,
    pub max_vram_bytes: u64,
    pub prefer_pinned_memory: bool,
    pub target_device: StageDevice,
    pub eviction_policy: CachePolicy,
}

/// The order layers run in, their sizes, where they go, and what to fetch first.
#[derive(Debug, Clone)]
pub struct FlexLoadPlan {
    pub ordered_layer_ids: Vec<usize>,
    pub layer_sizes: Vec<u64>,
    pub target_device: StageDevice,
    pub prefetch_schedule: Vec<usize>,
}

} // verus!
