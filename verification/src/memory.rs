//! Memory modes, budgets and layer placements.
use vstd::prelude::*;

verus! {

/// How model memory is managed.
#[derive(Debug, Clone, Default)]
pub enum MemoryMode {
    #[default]
    Auto,
    Offload,
    FlexLoad,
}

/// Layers on each side of a GPU/CPU split.
#[derive(Debug, Clone)]
pub struct OffloadPlan {
    pub gpu_layers: usize,
    pub cpu_layers: usize,
}

/// Where one layer lives.
#[derive(Debug, Clone)]
pub enum LayerPlacement {
    Gpu,
    Cpu,
    Disk,
}

/// Memory available to the runtime, in bytes.
#[derive(Debug, Clone, Default)]
pub struct MemoryBudget {
    pub vram_bytes_total: usize,
    pub vram_bytes_available: usize,
    pub ram_bytes_total: usize,
    pub ram_bytes_available: usize,
}

} // verus!
