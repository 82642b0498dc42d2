use std::path::PathBuf;
use std::sync::Arc;

use candle_core::{DType, Device, Tensor};
use zenllm::flexload::candle_device::{CandleDeviceStager, CandleTarget};
use zenllm::flexload::device_stage::{LayerState, StageDevice};
use zenllm::flexload::error::FlexLoadError;
use zenllm::flexload::layer_cache::{CachePolicy, LayerCache};
use zenllm::flexload::layer_streamer::{DeviceStager, LayerStore, LayerStreamer, LayerTask, PrepareStep};
use zenllm::flexload::memory_budget::{FlexLoadConfig, FlexLoadPlan};
use zenllm::flexload::safetensor_store::{layer_dtype_for, LayerDtype, LayerPrefixPattern, SafetensorsLayerStore, TensorDtype};

fn file_with(names: &[&str]) -> Vec<u8> {
    let tensor = Tensor::zeros((10, 10), DType::F32, &Device::Cpu).unwrap();
    let data: Vec<(&str, &Tensor)> = names.iter().map(|n| (*n, &tensor)).collect();
    safetensors::serialize(data, None).unwrap()
}

fn store(prefix: &str) -> SafetensorsLayerStore {
    SafetensorsLayerStore {
        paths: vec![PathBuf::from("model.safetensors")],
        layer_prefix_pattern: LayerPrefixPattern { prefix: prefix.to_string() },
    }
}

#[test]
fn test_safetensors_layer_store_parsing() {
    let bytes = file_with(&["model.layers.0.weight"]);
    let store = store("model.layers.");
    let buffers: Vec<&[u8]> = vec![&bytes];

    let ids = store.layer_ids_in(&buffers);
    assert_eq!(ids, vec![0]);

    let layer = store.layer_tensors_in(0, &buffers).unwrap();
    assert_eq!(layer, vec![vec![("model.layers.0.weight".to_string(), "weight".to_string())]]);
    assert!(layer[0].iter().any(|(_, relative)| relative == "weight"));

    let specs = store.layer_load_specs_in(0, &buffers).unwrap();
    assert_eq!(specs.len(), 1);
    assert_eq!(specs[0].len(), 1);
    let (name, relative, dtype, shape, start, end) = &specs[0][0];
    assert_eq!(name, "model.layers.0.weight");
    assert_eq!(relative, "weight");
    assert_eq!(*dtype, LayerDtype::F32);
    assert_eq!(shape, &vec![10, 10]);
    assert_eq!(end - start, 10 * 10 * 4);
    assert_eq!(*end, bytes.len());
    let tensor = Tensor::from_raw_buffer(&bytes[*start..*end], DType::F32, shape, &Device::Cpu).unwrap();
    assert_eq!(tensor.dims(), &[10, 10]);

    let size = store.layer_size_in(0, &buffers).unwrap();
    assert_eq!(size, 10 * 10 * 4);
}

#[test]
fn layer_tensors_per_file_with_the_rest_of_the_name() {
    let a = file_with(&["model.layers.1.mlp.weight", "model.layers.11.weight", "lm_head.weight"]);
    let junk = vec![0u8, 1, 2];
    let b = file_with(&["model.layers.1.norm"]);
    let c = file_with(&["model.layers.2.norm"]);
    let buffers: Vec<&[u8]> = vec![&a, &junk, &b, &c];
    let s = store("model.layers.");
    let sel = s.layer_tensors_in(1, &buffers).unwrap();
    assert_eq!(sel.len(), 4);
    assert_eq!(sel[0], vec![("model.layers.1.mlp.weight".to_string(), "mlp.weight".to_string())]);
    assert!(sel[1].is_empty());
    assert_eq!(sel[2], vec![("model.layers.1.norm".to_string(), "norm".to_string())]);
    assert!(sel[3].is_empty());
    match s.layer_tensors_in(5, &buffers) {
        Err(FlexLoadError::LayerNotFound(id)) => assert_eq!(id, 5),
        other => panic!("expected LayerNotFound, got {:?}", other),
    }
}

#[test]
fn layer_dtypes() {
    assert_eq!(layer_dtype_for("w", TensorDtype::F16).unwrap(), LayerDtype::F16);
    assert_eq!(layer_dtype_for("w", TensorDtype::BF16).unwrap(), LayerDtype::BF16);
    assert_eq!(layer_dtype_for("w", TensorDtype::F32).unwrap(), LayerDtype::F32);
    match layer_dtype_for("model.layers.0.q", TensorDtype::Other) {
        Err(e) => assert_eq!(e.message(), "IO Error: Unsupported dtype for tensor: model.layers.0.q"),
        Ok(d) => panic!("expected an error, got {:?}", d),
    }
}

#[test]
fn layer_ids_are_sorted_and_distinct_across_files() {
    let a = file_with(&["model.layers.3.weight", "model.layers.10.bias", "model.layers.3.bias", "lm_head.weight"]);
    let b = file_with(&["model.layers.1.weight", "model.layers.x.weight", "model.layers.+2.weight"]);
    let junk = vec![1u8, 2, 3];
    let buffers: Vec<&[u8]> = vec![&a, &junk, &b];
    assert_eq!(store("model.layers.").layer_ids_in(&buffers), vec![1, 2, 3, 10]);
}

#[test]
fn layer_size_sums_every_file_and_needs_the_dot() {
    let a = file_with(&["model.layers.1.weight", "model.layers.1.bias", "model.layers.11.weight"]);
    let b = file_with(&["model.layers.1.norm"]);
    let buffers: Vec<&[u8]> = vec![&a, &b];
    let s = store("model.layers.");
    assert_eq!(s.layer_size_in(1, &buffers).unwrap(), 3 * 400);
    assert_eq!(s.layer_size_in(11, &buffers).unwrap(), 400);
    match s.layer_size_in(7, &buffers) {
        Err(FlexLoadError::LayerNotFound(id)) => assert_eq!(id, 7),
        other => panic!("expected LayerNotFound, got {:?}", other),
    }
}

#[test]
fn candle_targets() {
    let st = CandleDeviceStager;
    assert_eq!(st.target_for(StageDevice::CpuRam, true).unwrap(), CandleTarget::Cpu);
    assert_eq!(st.target_for(StageDevice::Disk, false).unwrap(), CandleTarget::Cpu);
    assert_eq!(st.target_for(StageDevice::Gpu { index: 2 }, true).unwrap(), CandleTarget::Cuda(2));
    match st.target_for(StageDevice::Gpu { index: 0 }, false) {
        Err(e) => assert_eq!(e.message(), "Invalid State Transition: CUDA feature not enabled"),
        Ok(_) => panic!("expected an error"),
    }
    assert!(st.evict(3).is_ok());
}

#[test]
fn error_messages() {
    assert_eq!(FlexLoadError::LayerNotFound(42).message(), "Layer 42 not found");
    assert_eq!(FlexLoadError::DeviceOutOfMemory("full".to_string()).message(), "Device OOM: full");
    assert_eq!(FlexLoadError::IoError("disk".to_string()).message(), "IO Error: disk");
}

#[test]
fn cache_counts_bytes_once_and_orders_by_use() {
    let mut c: LayerCache<u32, u32> = LayerCache::new();
    c.insert_vram(1, 10, 100);
    c.insert_vram(2, 20, 100);
    c.insert_vram(1, 11, 100);
    assert_eq!(c.vram_usage, 200);
    assert_eq!(c.get_vram(1), Some(&11));
    assert_eq!(c.vram_access_order.iter().copied().collect::<Vec<_>>(), vec![2, 1]);
    assert_eq!(c.evict_vram_victim(CachePolicy::Lru, 0, &[]), Some(2));
    assert_eq!(c.evict_vram_victim(CachePolicy::Mru, 0, &[]), Some(1));
    c.mark_vram_accessed(2);
    assert_eq!(c.evict_vram_victim(CachePolicy::Lru, 0, &[]), Some(1));
    assert_eq!(c.remove_vram(1, 100), Some(11));
    assert_eq!(c.vram_usage, 100);
    assert_eq!(c.remove_vram(1, 100), None);
    assert_eq!(c.remove_vram(2, 500), Some(20));
    assert_eq!(c.vram_usage, 0);
}

#[test]
fn static_pinning_evicts_the_layer_last_in_the_plan() {
    let mut c: LayerCache<u32, u32> = LayerCache::new();
    c.insert_ram(0, 0, 1);
    c.insert_ram(5, 5, 1);
    c.insert_ram(2, 2, 1);
    assert_eq!(c.evict_ram_victim(CachePolicy::StaticPinning, 0, &[0, 1, 2, 3, 4, 5]), Some(5));
    assert_eq!(c.evict_ram_victim(CachePolicy::StaticPinning, 0, &[5, 2, 0]), Some(0));
    assert_eq!(c.ram_usage, 3);
}

struct Store;

impl LayerStore for Store {
    type LayerWeights = usize;
    fn layer_ids(&self) -> Vec<usize> {
        vec![0, 1, 2, 3]
    }
    fn load_layer(&self, layer_id: usize) -> Result<usize, FlexLoadError> {
        Ok(layer_id)
    }
    fn layer_size_bytes(&self, _layer_id: usize) -> Result<u64, FlexLoadError> {
        Ok(100)
    }
}

struct Stager;

impl DeviceStager for Stager {
    type HostLayer = usize;
    type DeviceLayer = usize;
    fn move_to_device(&self, layer: usize, _device: StageDevice) -> Result<usize, FlexLoadError> {
        Ok(layer + 1000)
    }
    fn evict(&self, _layer_id: usize) -> Result<(), FlexLoadError> {
        Ok(())
    }
}

fn streamer(max_vram: u64, policy: CachePolicy) -> LayerStreamer<Store, Stager> {
    LayerStreamer::new(
        Arc::new(Store),
        Arc::new(Stager),
        FlexLoadConfig {
            prefetch_ahead_count: 1,
            max_ram_bytes: 1000,
            max_vram_bytes: max_vram,
            prefer_pinned_memory: false,
            target_device: StageDevice::Gpu { index: 0 },
            eviction_policy: policy,
        },
        FlexLoadPlan {
            ordered_layer_ids: vec![0, 1, 2, 3],
            layer_sizes: vec![100, 100, 100, 100],
            target_device: StageDevice::Gpu { index: 0 },
            prefetch_schedule: vec![0, 1, 2, 3],
        },
    )
}

fn loaded(id: usize) -> Result<LayerTask<usize>, FlexLoadError> {
    Ok(LayerTask { layer_id: id, layer: id, size_bytes: 100 })
}

#[test]
fn streamer_loads_stages_and_prefetches() {
    let mut s = streamer(1000, CachePolicy::Lru);
    assert_eq!(s.take_requests(), vec![0]);
    assert_eq!(s.take_requests(), Vec::<usize>::new());

    assert_eq!(s.prepare_layer(0).unwrap(), PrepareStep::AwaitingLoad);
    assert_eq!(s.take_requests(), Vec::<usize>::new());
    assert_eq!(s.on_fetch_result(0, loaded(0)).unwrap(), PrepareStep::Staged);
    assert_eq!(s.get_layer(0), Some(&1000));
    assert_eq!(s.prepare_layer(0).unwrap(), PrepareStep::VramHit);

    s.release_layer(0).unwrap();
    assert_eq!(s.take_requests(), vec![1]);
    s.release_layer(0).unwrap();
    assert_eq!(s.take_requests(), Vec::<usize>::new());
    s.release_layer(3).unwrap();
    assert_eq!(s.take_requests(), Vec::<usize>::new());
}

#[test]
fn streamer_keeps_vram_within_budget() {
    let mut s = streamer(200, CachePolicy::Lru);
    s.take_requests();
    for id in 0..3 {
        s.prepare_layer(id).unwrap();
        assert_eq!(s.on_fetch_result(id, loaded(id)).unwrap(), PrepareStep::Staged);
    }
    assert_eq!(s.get_layer(0), None);
    assert_eq!(s.get_layer(1), Some(&1001));
    assert_eq!(s.get_layer(2), Some(&1002));
}

#[test]
fn streamer_waits_for_the_awaited_layer_and_passes_errors_on() {
    let mut s = streamer(1000, CachePolicy::Mru);
    s.take_requests();
    assert_eq!(s.prepare_layer(2).unwrap(), PrepareStep::AwaitingLoad);
    assert_eq!(s.take_requests(), vec![2]);
    assert_eq!(s.on_fetch_result(2, loaded(1)).unwrap(), PrepareStep::AwaitingLoad);
    assert_eq!(s.get_layer(2), None);
    match s.on_fetch_result(2, Err(FlexLoadError::IoError("gone".to_string()))) {
        Err(FlexLoadError::IoError(m)) => assert_eq!(m, "gone"),
        _ => panic!("expected the load error"),
    }
    assert_eq!(s.prepare_layer(1).unwrap(), PrepareStep::Staged);
    assert_eq!(s.get_layer(1), Some(&1001));
}

#[test]
fn layer_states_compare() {
    assert_eq!(LayerState::Failed("x".to_string()), LayerState::Failed("x".to_string()));
    assert_ne!(LayerState::Queued, LayerState::InRam);
}

#[test]
fn layer_tensors_are_selected_per_file() {
    let s = store("model.layers.");
    let files = vec![
        vec!["model.layers.1.attn.q".to_string(), "model.layers.10.mlp".to_string(), "lm_head".to_string()],
        vec![],
        vec!["model.layers.1.mlp.up".to_string()],
    ];
    let sel = s.select_layer_tensors(1, &files).unwrap();
    assert_eq!(sel.len(), 3);
    assert_eq!(sel[0], vec![("model.layers.1.attn.q".to_string(), "attn.q".to_string())]);
    assert!(sel[1].is_empty());
    assert_eq!(sel[2], vec![("model.layers.1.mlp.up".to_string(), "mlp.up".to_string())]);
    match s.select_layer_tensors(2, &files) {
        Err(FlexLoadError::LayerNotFound(id)) => assert_eq!(id, 2),
        _ => panic!("expected LayerNotFound"),
    }
}

struct ShiftingSizes {
    sizes: std::cell::RefCell<Vec<u64>>,
}

impl LayerStore for ShiftingSizes {
    type LayerWeights = usize;
    fn layer_ids(&self) -> Vec<usize> {
        vec![0, 1]
    }
    fn load_layer(&self, layer_id: usize) -> Result<usize, FlexLoadError> {
        Ok(layer_id)
    }
    fn layer_size_bytes(&self, _layer_id: usize) -> Result<u64, FlexLoadError> {
        let mut sizes = self.sizes.borrow_mut();
        Ok(if sizes.is_empty() { 0 } else { sizes.remove(0) })
    }
}

#[test]
fn vram_counter_overflow_is_reported() {
    let store = ShiftingSizes { sizes: std::cell::RefCell::new(vec![u64::MAX, 1, 0]) };
    let mut s: LayerStreamer<ShiftingSizes, Stager> = LayerStreamer::new(
        Arc::new(store),
        Arc::new(Stager),
        FlexLoadConfig {
            prefetch_ahead_count: 0,
            max_ram_bytes: u64::MAX,
            max_vram_bytes: u64::MAX,
            prefer_pinned_memory: false,
            target_device: StageDevice::CpuRam,
            eviction_policy: CachePolicy::Lru,
        },
        FlexLoadPlan {
            ordered_layer_ids: vec![0, 1],
            layer_sizes: vec![],
            target_device: StageDevice::CpuRam,
            prefetch_schedule: vec![],
        },
    );
    assert_eq!(s.take_requests(), Vec::<usize>::new());
    assert_eq!(s.prepare_layer(0).unwrap(), PrepareStep::AwaitingLoad);
    assert_eq!(s.on_fetch_result(0, Ok(LayerTask { layer_id: 0, layer: 0, size_bytes: 1 })).unwrap(), PrepareStep::Staged);
    assert_eq!(s.prepare_layer(1).unwrap(), PrepareStep::AwaitingLoad);
    match s.on_fetch_result(1, Ok(LayerTask { layer_id: 1, layer: 1, size_bytes: 1 })) {
        Err(FlexLoadError::DeviceOutOfMemory(m)) => assert_eq!(m, "VRAM usage counter overflow"),
        other => panic!("expected DeviceOutOfMemory, got {:?}", other.map(|_| ())),
    }
}

#[test]
fn layer_ids_and_sizes_from_tables() {
    let s = store("blk.");
    let tables = vec![
        vec![("blk.2.attn".to_string(), 30), ("blk.0.ffn".to_string(), 5), ("blk.02.x".to_string(), 7)],
        vec![("output.weight".to_string(), 100), ("blk.2.ffn".to_string(), 12)],
    ];
    assert_eq!(s.layer_ids_from_tables(&tables), vec![0, 2]);
    assert_eq!(s.layer_size_from_tables(2, &tables).unwrap(), 42);
    assert_eq!(s.layer_size_from_tables(0, &tables).unwrap(), 5);
    assert!(matches!(s.layer_size_from_tables(1, &tables), Err(FlexLoadError::LayerNotFound(1))));
    let zero = vec![vec![("blk.4.empty".to_string(), 0)]];
    assert_eq!(s.layer_ids_from_tables(&zero), vec![4]);
    assert!(matches!(s.layer_size_from_tables(4, &zero), Err(FlexLoadError::LayerNotFound(4))));
}

#[test]
fn staging_hands_the_host_layer_to_the_stager_and_caches_its_result() {
    let mut s = streamer(1000, CachePolicy::Lru);
    s.take_requests();
    s.process_loaded(0, loaded(2)).unwrap();
    assert_eq!(s.staging_request(2), Some((2, StageDevice::Gpu { index: 0 })));
    assert_eq!(s.staging_request(3), None);

    s.finish_staging(2, 100, Ok(5000)).unwrap();
    assert_eq!(s.get_layer(2), Some(&5000));

    match s.finish_staging(3, 100, Err(FlexLoadError::IoError("stager failed".to_string()))) {
        Err(FlexLoadError::IoError(m)) => assert_eq!(m, "stager failed"),
        other => panic!("expected the stager's error, got {:?}", other),
    }
    assert_eq!(s.get_layer(3), None);

    match s.finish_staging(4, u64::MAX, Ok(1)) {
        Err(FlexLoadError::DeviceOutOfMemory(m)) => assert_eq!(m, "VRAM usage counter overflow"),
        other => panic!("expected DeviceOutOfMemory, got {:?}", other),
    }
    assert_eq!(s.get_layer(4), None);
    assert_eq!(s.get_layer(2), Some(&5000));
}

#[test]
fn first_requests_follow_the_prefetch_schedule() {
    let mut s: LayerStreamer<Store, Stager> = LayerStreamer::new(
        Arc::new(Store),
        Arc::new(Stager),
        FlexLoadConfig {
            prefetch_ahead_count: 3,
            max_ram_bytes: 1000,
            max_vram_bytes: 1000,
            prefer_pinned_memory: false,
            target_device: StageDevice::CpuRam,
            eviction_policy: CachePolicy::Lru,
        },
        FlexLoadPlan {
            ordered_layer_ids: vec![0, 1, 2, 3],
            layer_sizes: vec![100, 100, 100, 100],
            target_device: StageDevice::CpuRam,
            prefetch_schedule: vec![2, 1, 2, 0],
        },
    );
    assert_eq!(s.take_requests(), vec![2, 1]);
    assert_eq!(s.get_layer(2), None);
}

#[test]
fn awaited_layer_that_does_not_fit_in_ram_is_not_found() {
    let mut s: LayerStreamer<Store, Stager> = LayerStreamer::new(
        Arc::new(Store),
        Arc::new(Stager),
        FlexLoadConfig {
            prefetch_ahead_count: 0,
            max_ram_bytes: 150,
            max_vram_bytes: 1000,
            prefer_pinned_memory: false,
            target_device: StageDevice::CpuRam,
            eviction_policy: CachePolicy::Mru,
        },
        FlexLoadPlan {
            ordered_layer_ids: vec![0, 1],
            layer_sizes: vec![100, 100],
            target_device: StageDevice::CpuRam,
            prefetch_schedule: vec![],
        },
    );
    assert_eq!(s.prepare_layer(0).unwrap(), PrepareStep::AwaitingLoad);
    assert_eq!(s.on_fetch_result(0, loaded(0)).unwrap(), PrepareStep::Staged);
    assert_eq!(s.ram_usage(), 100);
    assert_eq!(s.prepare_layer(1).unwrap(), PrepareStep::AwaitingLoad);
    match s.on_fetch_result(1, loaded(1)) {
        Err(FlexLoadError::LayerNotFound(id)) => assert_eq!(id, 1),
        other => panic!("expected LayerNotFound, got {:?}", other),
    }
    assert_eq!(s.ram_usage(), 100);
    assert_eq!(s.get_layer(1), None);
}

#[test]
fn layer_load_specs_per_file_and_refusals() {
    let a = file_with(&["model.layers.1.mlp.weight", "model.layers.11.weight", "lm_head.weight"]);
    let junk = vec![0u8, 1, 2];
    let b = file_with(&["model.layers.1.norm"]);
    let buffers: Vec<&[u8]> = vec![&a, &junk, &b];
    let s = store("model.layers.");
    let specs = s.layer_load_specs_in(1, &buffers).unwrap();
    assert_eq!(specs.len(), 3);
    assert_eq!(specs[0].len(), 1);
    assert_eq!(specs[0][0].1, "mlp.weight");
    assert!(specs[1].is_empty());
    assert_eq!(specs[2][0].1, "norm");
    for (buffer, picks) in buffers.iter().zip(specs.iter()) {
        for (_, _, _, shape, start, end) in picks {
            assert_eq!(shape, &vec![10, 10]);
            assert_eq!(end - start, 400);
            assert!(*end <= buffer.len());
        }
    }
    match s.layer_load_specs_in(5, &buffers) {
        Err(FlexLoadError::LayerNotFound(id)) => assert_eq!(id, 5),
        other => panic!("expected LayerNotFound, got {:?}", other),
    }
    let ints = Tensor::zeros((2, 2), DType::U32, &Device::Cpu).unwrap();
    let odd = safetensors::serialize(vec![("model.layers.2.ids", &ints)], None).unwrap();
    let with_odd: Vec<&[u8]> = vec![&a, &odd];
    match s.layer_load_specs_in(2, &with_odd) {
        Err(e) => assert_eq!(e.message(), "IO Error: Unsupported dtype for tensor: model.layers.2.ids"),
        Ok(_) => panic!("expected the dtype refusal"),
    }
}
