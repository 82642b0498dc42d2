//! Errors of layer streaming.
use vstd::prelude::*;

verus! {

/// What can go wrong while streaming layers.
#[derive(Debug)]
pub enum FlexLoadError {
    LayerNotFound(usize),
    DeviceOutOfMemory(String),
    IoError(String),
    InvalidStateTransition(String),
}

impl FlexLoadError {
    /// The message `Display` shows for this error (`Layer {id} not found`,
    /// `Device OOM: {msg}`, `IO Error: {msg}`, `Invalid State Transition: {msg}`).
    pub fn message(&self) -> (s: String)
        ensures
            s@ == match self {
                FlexLoadError::LayerNotFound(id) => "Layer "@ + crate::text::decimal(*id as nat) + " not found"@,
                FlexLoadError::DeviceOutOfMemory(m) => "Device OOM: "@ + m@,
                FlexLoadError::IoError(m) => "IO Error: "@ + m@,
                FlexLoadError::InvalidStateTransition(m) => "Invalid State Transition: "@ + m@,
            },
    {
        match self {
            FlexLoadError::LayerNotFound(id) => String::from_str("Layer ").concat(
                crate::text::usize_to_decimal(*id).as_str()).concat(" not found"),
            FlexLoadError::DeviceOutOfMemory(m) => String::from_str("Device OOM: ").concat(m.as_str()),
            FlexLoadError::IoError(m) => String::from_str("IO Error: ").concat(m.as_str()),
            FlexLoadError::InvalidStateTransition(m) => String::from_str("Invalid State Transition: ").concat(
                m.as_str()),
        }
    }
}

} // verus!
