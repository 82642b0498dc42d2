//! Where the candle stager puts a layer.
use vstd::prelude::*;
use crate::flexload::device_stage::StageDevice;
use crate::flexload::error::FlexLoadError;

verus! {

/// Stages layers held as candle tensors.
pub struct CandleDeviceStager;

/// A candle device: the CPU, or the CUDA device with the given ordinal.
#[derive(Debug, Clone, Copy, PartialEq, Eq, Structural)]
pub enum CandleTarget {
    Cpu,
    Cuda(usize),
}

impl CandleDeviceStager {
    /// The candle device a layer staged to `device` goes to. Every host-side place (RAM,
    /// pinned or unified memory, disk, unknown) is the CPU; a GPU is its CUDA device when the
    /// build has CUDA support, and an `InvalidStateTransition("CUDA feature not enabled")`
    /// otherwise.
    pub fn target_for(&self, device: StageDevice, cuda_built: bool) -> (r: Result<CandleTarget, FlexLoadError>)
        ensures
            match device {
                StageDevice::Gpu { index } => if cuda_built {
                    r == Ok::<CandleTarget, FlexLoadError>(CandleTarget::Cuda(index))
                } else {
                    r matches Err(FlexLoadError::InvalidStateTransition(m)) && m@ == "CUDA feature not enabled"@
                },
                _ => r == Ok::<CandleTarget, FlexLoadError>(CandleTarget::Cpu),
            },
    {
        match device {
            StageDevice::Gpu { index } => if cuda_built {
                Ok(CandleTarget::Cuda(index))
            } else {
                Err(FlexLoadError::InvalidStateTransition(String::from_str("CUDA feature not enabled")))
            },
            _ => Ok(CandleTarget::Cpu),
        }
    }

    /// Releasing a layer needs nothing from the stager: dropping its tensors frees them.
    pub fn evict(&self, layer_id: usize) -> (r: Result<(), FlexLoadError>)
        ensures
            r is Ok,
    {
        Ok(())
    }
}

} // verus!
