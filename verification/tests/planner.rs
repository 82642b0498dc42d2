use zenllm::hardware::{AcceleratorInfo, AcceleratorType, CpuInfo, HardwareInfo, MemoryInfo};
use zenllm::model_meta::ModelMetadata;
use zenllm::planner::{create_load_plan, PlannerDecision, PlannerInput, RuntimeMode};

fn dummy_hw(vram: usize, ram: usize) -> HardwareInfo {
    let mut accelerators = vec![];
    if vram > 0 {
        accelerators.push(AcceleratorInfo {
            kind: AcceleratorType::Nvidia,
            name: "TestGPU".to_string(),
            vram_total: vram,
            vram_available: vram,
            compute_capability: None,
        });
    }
    HardwareInfo {
        cpu: CpuInfo { cores: 8, vendor: "Test".to_string() },
        memory: MemoryInfo { ram_total: ram, ram_available: ram },
        accelerators,
    }
}

fn dummy_meta(vram: usize, ram: usize) -> ModelMetadata {
    ModelMetadata {
        num_parameters: 7_000_000_000,
        model_dtype: "bf16".to_string(),
        estimated_vram_usage: vram,
        estimated_ram_usage: ram,
        layer_count: 32,
        context_window: 8192,
        format: "safetensors".to_string(),
    }
}

fn input(hw: HardwareInfo, meta: ModelMetadata, mode: RuntimeMode, fallback_allowed: bool) -> PlannerInput {
    PlannerInput {
        hardware: hw,
        metadata: meta,
        requested_mode: mode,
        fallback_allowed,
        cuda_enabled: true,
        metal_enabled: false,
    }
}

#[test]
fn test_auto_selects_gpu_when_vram_enough() {
    let hw = dummy_hw(10_000_000_000, 16_000_000_000);
    let meta = dummy_meta(8_000_000_000, 4_000_000_000);
    match create_load_plan(&input(hw, meta, RuntimeMode::Auto, false)) {
        PlannerDecision::Accepted(plan) => {
            assert!(matches!(plan.selected_mode, RuntimeMode::GpuOnly));
            assert_eq!(plan.gpu_layers, Some(32));
        }
        _ => panic!("Expected Accepted"),
    }
}

#[test]
fn test_auto_selects_partial_offload_when_some_vram() {
    let hw = dummy_hw(4_000_000_000, 16_000_000_000);
    let meta = dummy_meta(8_000_000_000, 4_000_000_000);
    match create_load_plan(&input(hw, meta, RuntimeMode::Auto, false)) {
        PlannerDecision::Accepted(plan) => {
            assert!(matches!(plan.selected_mode, RuntimeMode::PartialOffload));
            // 4GB out of 8GB for 32 layers = 16 layers
            assert_eq!(plan.gpu_layers, Some(16));
            assert_eq!(plan.cpu_layers, Some(16));
        }
        _ => panic!("Expected Accepted"),
    }
}

#[test]
fn test_auto_selects_cpu_when_no_gpu_but_ram_enough() {
    let hw = dummy_hw(0, 16_000_000_000);
    let meta = dummy_meta(8_000_000_000, 4_000_000_000);
    match create_load_plan(&input(hw, meta, RuntimeMode::Auto, false)) {
        PlannerDecision::Accepted(plan) => {
            assert!(matches!(plan.selected_mode, RuntimeMode::CpuOnly));
            assert_eq!(plan.cpu_layers, Some(32));
        }
        _ => panic!("Expected Accepted"),
    }
}

#[test]
fn test_auto_selects_flexload_when_ram_too_low() {
    let hw = dummy_hw(0, 2_000_000_000);
    let meta = dummy_meta(8_000_000_000, 4_000_000_000);
    match create_load_plan(&input(hw, meta, RuntimeMode::Auto, false)) {
        PlannerDecision::Accepted(plan) => {
            assert!(matches!(plan.selected_mode, RuntimeMode::FlexLoad));
        }
        _ => panic!("Expected Accepted"),
    }
}

#[test]
fn test_gpu_only_rejects_when_no_vram_and_no_fallback() {
    let hw = dummy_hw(2_000_000_000, 16_000_000_000);
    let meta = dummy_meta(8_000_000_000, 4_000_000_000);
    match create_load_plan(&input(hw, meta, RuntimeMode::GpuOnly, false)) {
        PlannerDecision::Rejected { suggestion, .. } => {
            assert!(matches!(suggestion, Some(RuntimeMode::Auto)));
        }
        _ => panic!("Expected Rejected"),
    }
}

#[test]
fn test_gpu_only_falls_back_when_allowed() {
    let hw = dummy_hw(4_000_000_000, 16_000_000_000);
    let meta = dummy_meta(8_000_000_000, 4_000_000_000);
    match create_load_plan(&input(hw, meta, RuntimeMode::GpuOnly, true)) {
        PlannerDecision::Accepted(plan) => {
            assert!(matches!(plan.requested_mode, RuntimeMode::GpuOnly));
            assert!(matches!(plan.selected_mode, RuntimeMode::PartialOffload));
            assert!(plan.fallback_used);
            assert_eq!(plan.gpu_layers, Some(16));
        }
        _ => panic!("Expected Accepted"),
    }
}
