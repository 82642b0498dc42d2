//! Where a layer can live, and the lifecycle states a layer goes through.
use vstd::prelude::*;

verus! {

/// A place a layer can be staged to.
#[derive(Debug, Clone, Copy, PartialEq, Eq, Structural)]
pub enum StageDevice {
    Disk,
    CpuRam,
    PinnedCpu,
    Gpu { index: usize },
    UnifiedMemory,
    Unknown,
}

/// Lifecycle of a streamed layer.
#[derive(Debug, Clone, PartialEq, Eq)]
pub enum LayerState {
    NotLoaded,
    Queued,
    Loading,
    InRam,
    MovingToDevice,
    OnDevice,
    Evicting,
    Evicted,
    Failed(String),
}

} // verus!
