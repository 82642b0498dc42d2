//! Layer streaming for models that do not fit in memory: the layer cache, the streamer's
//! decisions, the budget and plan types, and the parsing of safetensors layer names.
pub mod device_stage;
pub mod error;
pub mod layer_cache;
pub mod memory_budget;
pub mod layer_streamer;
pub mod safetensor_store;
pub mod candle_device;
