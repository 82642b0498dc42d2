use zenllm::env::{env_flag, env_or_legacy, is_flag_enabled};
use zenllm::hardware::{AcceleratorType, HardwareDetector, SystemProbe};
use zenllm::launch::{apply_plan, guess_quantization, rejection_message, runtime_mode_name, DeviceSettings};
use zenllm::model_meta::estimate_model_metadata;
use zenllm::planner::{LoadPlan, RuntimeMode};
use zenllm::pull::{
    download_verdict, file_name_from_url, file_to_register, ollama_blob_name, DownloadVerdict, ollama_file_name, ollama_model_id, select_model_layer, select_target_weights,
    should_download, split_model_tag, OllamaLayer,
};
use zenllm::queue::{schedule_step, RequestQueue, SchedulerStep};
use zenllm::routing::{RouteDefinition, SemanticRouter};

fn route(name: &str, target: &str, examples: &[&str]) -> RouteDefinition {
    RouteDefinition {
        name: name.to_string(),
        description: String::new(),
        target_model_id: target.to_string(),
        examples: examples.iter().map(|e| e.to_string()).collect(),
    }
}

#[test]
fn router_matches_names_and_examples_ignoring_case() {
    let mut r = SemanticRouter::new();
    assert_eq!(r.route_query("anything"), None);
    r.add_route(route("Code", "coder-7b", &["write a function", "Debug"]));
    r.add_route(route("chat", "chat-3b", &["hello"]));
    assert_eq!(r.route_query("CODE").as_deref(), Some("coder-7b"));
    assert_eq!(r.route_query("please debug this").as_deref(), Some("coder-7b"));
    assert_eq!(r.route_query("Hello there").as_deref(), Some("chat-3b"));
    assert_eq!(r.route_query("CHAT").as_deref(), Some("chat-3b"));
    assert_eq!(r.route_query("what is the weather").as_deref(), Some("coder-7b"));
}

#[test]
fn router_takes_the_first_matching_route() {
    let mut r = SemanticRouter::new();
    r.add_route(route("a", "first", &["x"]));
    r.add_route(route("b", "second", &["xy"]));
    assert_eq!(r.route_query("xyz").as_deref(), Some("first"));
}

#[test]
fn flags() {
    assert!(is_flag_enabled(Some("1"), None));
    assert!(!is_flag_enabled(Some("true"), None));
    assert!(!is_flag_enabled(Some(" 1"), None));
    assert!(!is_flag_enabled(None, None));
    assert!(is_flag_enabled(None, Some("1")));
    assert!(is_flag_enabled(Some("0"), Some("1")));
    assert!(is_flag_enabled(Some("1"), Some("0")));
    assert!(!is_flag_enabled(Some("0"), Some("true")));
    assert!(env_flag(Some("yes"), false));
    assert!(env_flag(Some("TRUE"), false));
    assert!(!env_flag(Some("off"), true));
    assert!(!env_flag(Some("0"), true));
    assert!(env_flag(Some("maybe"), true));
    assert!(!env_flag(Some("True"), false));
    assert!(!env_flag(None, false));
}

#[test]
fn estimates_follow_the_name_and_dtype() {
    let m = estimate_model_metadata("Meta-Llama-3-8B-Instruct", "bf16");
    assert_eq!(m.num_parameters, 8_000_000_000);
    assert_eq!(m.estimated_vram_usage, 19_200_000_000);
    assert_eq!(m.estimated_ram_usage, 4_800_000_000);
    assert_eq!(m.layer_count, 32);
    assert_eq!(m.context_window, 8192);
    assert_eq!(m.format, "safetensors");
    assert_eq!(m.model_dtype, "bf16");

    let q = estimate_model_metadata("Qwen2.5-0.5B-Instruct", "Q4");
    assert_eq!(q.num_parameters, 500_000_000);
    assert_eq!(q.estimated_vram_usage, 300_000_000);
    assert_eq!(q.estimated_ram_usage, 75_000_000);
    assert_eq!(q.layer_count, 24);
    assert_eq!(q.model_dtype, "Q4");

    let d = estimate_model_metadata("mistral", "weird");
    assert_eq!(d.num_parameters, 7_000_000_000);
    assert_eq!(d.estimated_vram_usage, 16_800_000_000);
    assert_eq!(d.estimated_ram_usage, 4_200_000_000);

    let big = estimate_model_metadata("LLAMA-70B", "F32");
    assert_eq!(big.num_parameters, 70_000_000_000);
    assert_eq!(big.estimated_vram_usage, 336_000_000_000);
    assert_eq!(big.estimated_ram_usage, 84_000_000_000);
    assert_eq!(big.layer_count, 80);

    let i8 = estimate_model_metadata("phi-14b", "int8");
    assert_eq!(i8.estimated_vram_usage, 16_800_000_000);
    assert_eq!(i8.layer_count, 40);
}

fn plan(mode: RuntimeMode, gpu_layers: Option<usize>) -> LoadPlan {
    LoadPlan {
        requested_mode: RuntimeMode::Auto,
        selected_mode: mode,
        gpu_layers,
        cpu_layers: None,
        accelerator_name: None,
        fallback_used: false,
        reason: String::new(),
        tensor_parallel: None,
    }
}

fn settings(cpu: bool, layers: Option<Vec<&str>>) -> DeviceSettings {
    DeviceSettings { cpu, device_layers: layers.map(|v| v.iter().map(|s| s.to_string()).collect()) }
}

#[test]
fn plans_become_device_settings() {
    let g = apply_plan(&plan(RuntimeMode::GpuOnly, Some(32)), "auto", settings(true, Some(vec!["0:4"])));
    assert!(!g.cpu);
    assert_eq!(g.device_layers, None);

    let c = apply_plan(&plan(RuntimeMode::CpuOnly, None), "auto", settings(false, None));
    assert!(c.cpu);

    let p = apply_plan(&plan(RuntimeMode::PartialOffload, Some(12)), "auto", settings(true, None));
    assert!(!p.cpu);
    assert_eq!(p.device_layers, Some(vec!["0:12".to_string()]));

    let u = apply_plan(&plan(RuntimeMode::PartialOffload, Some(12)), "20", settings(true, None));
    assert_eq!(u.device_layers, Some(vec!["0:20".to_string()]));

    let bad = apply_plan(&plan(RuntimeMode::PartialOffload, Some(12)), "many", settings(true, None));
    assert_eq!(bad.device_layers, None);

    let kept = apply_plan(&plan(RuntimeMode::PartialOffload, Some(12)), "20", settings(true, Some(vec!["0:3", "1:5"])));
    assert_eq!(kept.device_layers, Some(vec!["0:3".to_string(), "1:5".to_string()]));

    let other = apply_plan(&plan(RuntimeMode::MultiGpu, None), "auto", settings(true, Some(vec!["0:1"])));
    assert!(other.cpu);
    assert_eq!(other.device_layers, Some(vec!["0:1".to_string()]));
}

#[test]
fn mode_names_and_quantization_guess() {
    assert_eq!(runtime_mode_name(RuntimeMode::PartialOffload), "partial-offload");
    assert_eq!(runtime_mode_name(RuntimeMode::FlexLoad), "flexload");
    assert_eq!(guess_quantization(Some("q5_k_m".to_string()), "model-Q4_0"), "q5_k_m");
    assert_eq!(guess_quantization(None, "Model-Q4_0.gguf"), "q4_0");
    assert_eq!(guess_quantization(None, "model-Q8_0"), "q8");
    assert_eq!(guess_quantization(None, "tiny-Q2_K"), "q2_k");
    assert_eq!(guess_quantization(None, "plain"), "f16");
}

#[test]
fn pull_choices() {
    let names: Vec<String> = ["README.md", "model-Q8_0.gguf", "model-Q4_K_M.gguf", "model-Q4_K_S.gguf", "config.json"]
        .iter()
        .map(|s| s.to_string())
        .collect();
    assert_eq!(select_target_weights(&names).as_deref(), Some("model-Q4_K_S.gguf"));
    let plain: Vec<String> = ["a.txt", "b.safetensors", "c.gguf"].iter().map(|s| s.to_string()).collect();
    assert_eq!(select_target_weights(&plain).as_deref(), Some("b.safetensors"));
    assert_eq!(select_target_weights(&vec!["x".to_string()]), None);

    let target = Some("b.safetensors".to_string());
    assert!(should_download("b.safetensors", &target));
    assert!(should_download("tokenizer_config.json", &target));
    assert!(should_download("generation_config.json", &None));
    assert!(!should_download("c.gguf", &target));

    assert_eq!(split_model_tag("llama3:8b"), ("llama3".to_string(), "8b".to_string()));
    assert_eq!(split_model_tag("a:b:c"), ("a".to_string(), "b:c".to_string()));
    assert_eq!(split_model_tag("mistral"), ("mistral".to_string(), "latest".to_string()));
    assert_eq!(file_name_from_url("https://h.co/x/y/model.gguf"), "model.gguf");
    assert_eq!(file_name_from_url("model.gguf"), "model.gguf");
    assert_eq!(ollama_blob_name("sha256:abc"), "sha256-abc");
    assert_eq!(ollama_file_name("llama3:8b"), "llama3-8b.gguf");
    assert_eq!(ollama_model_id("llama3:8b"), "ollama/llama3:8b");
}

fn layer(media: Option<&str>, size: Option<u64>) -> OllamaLayer {
    OllamaLayer { media_type: media.map(|s| s.to_string()), size, digest: Some("sha256:d".to_string()) }
}

#[test]
fn ollama_model_layer_is_the_largest() {
    let layers = vec![
        layer(Some("application/vnd.ollama.image.model"), Some(10)),
        layer(Some("application/vnd.ollama.image.template"), Some(1000)),
        layer(Some("application/vnd.ollama.image.model"), Some(50)),
        layer(None, Some(5000)),
        layer(Some("application/vnd.ollama.image.model"), Some(50)),
    ];
    assert_eq!(select_model_layer(&layers), Some(4));
    assert_eq!(select_model_layer(&vec![layer(Some("text"), Some(1))]), None);
}

fn probe() -> SystemProbe {
    SystemProbe {
        cpu_brands: vec!["AMD Ryzen 9".to_string(), "AMD Ryzen 9".to_string()],
        ram_total: 64 << 30,
        ram_available: 32 << 30,
        nvidia_smi: None,
        rocm_smi: None,
        sycl_ls: None,
        system_profiler: None,
    }
}

#[test]
fn detect_without_tools_reports_a_cpu_placeholder() {
    let h = HardwareDetector::detect(probe());
    assert_eq!(h.cpu.cores, 2);
    assert_eq!(h.cpu.vendor, "AMD Ryzen 9");
    assert_eq!(h.memory.ram_total, 64 << 30);
    assert_eq!(h.accelerators.len(), 1);
    assert_eq!(h.accelerators[0].kind, AcceleratorType::CpuOnly);
    assert_eq!(h.accelerators[0].name, "CPU Fallback");
    assert_eq!(h.accelerators[0].vram_total, 0);

    let mut none = probe();
    none.cpu_brands = vec![];
    assert_eq!(HardwareDetector::detect(none).cpu.vendor, "Unknown");
}

#[test]
fn detect_reads_the_vendor_tools() {
    let mut p = probe();
    p.nvidia_smi = Some("NVIDIA GeForce RTX 4090, 24564, 23000, 8.9\nbroken line\r\nTesla T4 , 15360 , 15000 , 7.5\r\n".to_string());
    p.rocm_smi = Some("device,id,vram Total Memory (B),vram Total Used Memory (B)\ncard0,0x744c,25753026560,1000\ncard1,0x1\n".to_string());
    p.sycl_ls = Some("[opencl:cpu] Intel CPU\n[ext_oneapi_level_zero:gpu:0] Intel(R) Arc(TM) A770 GPU\n".to_string());
    p.system_profiler = Some("Chipset Model: Apple M2 Max\n".to_string());
    let h = HardwareDetector::detect(p);
    let kinds: Vec<AcceleratorType> = h.accelerators.iter().map(|a| a.kind.clone()).collect();
    assert_eq!(
        kinds,
        vec![AcceleratorType::Nvidia, AcceleratorType::Nvidia, AcceleratorType::Amd, AcceleratorType::Intel, AcceleratorType::AppleMetal]
    );
    let a = &h.accelerators;
    assert_eq!(a[0].name, "NVIDIA GeForce RTX 4090");
    assert_eq!(a[0].vram_total, 24564 * 1024 * 1024);
    assert_eq!(a[0].vram_available, 23000 * 1024 * 1024);
    assert_eq!(a[0].compute_capability.as_deref(), Some("8.9"));
    assert_eq!(a[1].name, "Tesla T4");
    assert_eq!(a[1].compute_capability.as_deref(), Some("7.5"));
    assert_eq!(a[2].name, "AMD GPU 0x744c");
    assert_eq!(a[2].vram_total, 25753026560);
    assert_eq!(a[2].vram_available, 25753025560);
    assert_eq!(a[3].name, "Intel oneAPI GPU");
    assert_eq!(a[3].vram_total, 8_000_000_000);
    assert_eq!(a[4].name, "Apple Metal GPU");
    assert_eq!(a[4].vram_total, 64 << 30);
    assert_eq!(a[4].vram_available, 32 << 30);
}

#[test]
fn detect_parses_bad_numbers_as_zero() {
    let mut p = probe();
    p.nvidia_smi = Some("GPU, n/a, 100, 9.0".to_string());
    p.rocm_smi = Some("header\ncard0,1,100,500".to_string());
    let h = HardwareDetector::detect(p);
    assert_eq!(h.accelerators.len(), 2);
    assert_eq!(h.accelerators[0].vram_total, 0);
    assert_eq!(h.accelerators[0].vram_available, 100 * 1024 * 1024);
    assert_eq!(h.accelerators[1].vram_available, 0);
}

#[test]
fn ollama_import_record() {
    let m = zenllm::pull::ollama_metadata("llama3:8b", std::path::PathBuf::from("/models/llama3-8b.gguf"));
    assert_eq!(m.model_id, "ollama/llama3:8b");
    assert_eq!(m.source_type, zenllm::registry::SourceType::Ollama);
    assert_eq!(m.source_ref, "llama3:8b");
    assert_eq!(m.format, "gguf");
    assert_eq!(m.recommended_mode.as_deref(), Some("auto"));
    assert_eq!(m.tags, vec!["ollama".to_string()]);
    assert_eq!(m.local_path, std::path::PathBuf::from("/models/llama3-8b.gguf"));
}

fn hw() -> zenllm::hardware::HardwareInfo {
    HardwareDetector::detect(probe())
}

#[test]
fn plan_inputs_for_records_and_runs() {
    let mut rec = zenllm::pull::ollama_metadata("qwen2.5:0.5b", std::path::PathBuf::from("/m/q.gguf"));
    rec.context_length = Some(32768);
    let i = zenllm::launch::plan_input_for_record(hw(), "Qwen2.5-0.5B-Q8_0", &rec, false, true);
    assert_eq!(i.metadata.model_dtype, "q8");
    assert_eq!(i.metadata.num_parameters, 500_000_000);
    assert_eq!(i.metadata.estimated_vram_usage, 600_000_000);
    assert_eq!(i.metadata.context_window, 32768);
    assert!(matches!(i.requested_mode, RuntimeMode::Auto));
    assert!(i.fallback_allowed);
    assert!(!i.cuda_enabled && i.metal_enabled);

    rec.quantization = Some("Q4".to_string());
    rec.context_length = None;
    let j = zenllm::launch::plan_input_for_record(hw(), "tiny-3b", &rec, true, false);
    assert_eq!(j.metadata.model_dtype, "Q4");
    assert_eq!(j.metadata.estimated_vram_usage, 1_800_000_000);
    assert_eq!(j.metadata.context_window, 8192);

    let r = zenllm::launch::plan_input_for_run(hw(), "llama-8b", "gguf".to_string(), RuntimeMode::GpuOnly, true, false);
    assert_eq!(r.metadata.format, "gguf");
    assert_eq!(r.metadata.estimated_vram_usage, 19_200_000_000);
    assert!(!r.fallback_allowed);
    let a = zenllm::launch::plan_input_for_run(hw(), "llama-8b", "ggml".to_string(), RuntimeMode::Auto, true, false);
    assert!(a.fallback_allowed);
}

#[test]
fn queue_is_first_in_first_out() {
    let mut q: RequestQueue<&str> = RequestQueue::new();
    assert_eq!(q.dequeue(), None);
    q.enqueue("a");
    q.enqueue("b");
    q.enqueue("c");
    assert_eq!(q.len(), 3);
    assert_eq!(q.dequeue(), Some("a"));
    q.enqueue("d");
    assert_eq!(q.dequeue(), Some("b"));
    match schedule_step(&mut q, 2) {
        SchedulerStep::Dispatch { engine, request } => {
            assert_eq!(engine, 0);
            assert_eq!(request, "c");
        }
        _ => panic!("expected a dispatch"),
    }
    match schedule_step(&mut q, 0) {
        SchedulerStep::Discard(r) => assert_eq!(r, "d"),
        _ => panic!("expected a discard"),
    }
    assert!(matches!(schedule_step(&mut q, 3), SchedulerStep::Idle));
    assert_eq!(q.len(), 0);
}

#[test]
fn lowercased_entry_points() {
    let mut r = SemanticRouter::new();
    r.add_route(route("code", "coder", &["debug"]));
    r.add_route(route("chat", "chatter", &[]));
    assert_eq!(r.route_lowercased("chat").as_deref(), Some("chatter"));
    assert_eq!(r.route_lowercased("CHAT").as_deref(), Some("coder"));
    assert_eq!(zenllm::launch::quantization_for_lowercase(None, "model-q4_0"), "q4_0");
    assert_eq!(zenllm::launch::quantization_for_lowercase(None, "MODEL-Q4_0"), "f16");
    assert_eq!(zenllm::registry::first_quant_tag("llama-q4_k_m-q8_0").as_deref(), Some("q4_k_m"));
    assert_eq!(zenllm::registry::first_quant_tag("LLAMA-Q4_K_M"), None);
}

#[test]
fn router_folds_case_of_query_and_examples() {
    let mut r = SemanticRouter::new();
    r.add_route(route("chat", "chatter", &["hello"]));
    r.add_route(route("Code", "coder", &["Debug"]));
    assert_eq!(r.route_query("please DEBUG this").as_deref(), Some("coder"));
    assert_eq!(r.route_query("cOdE").as_deref(), Some("coder"));
    assert_eq!(r.route_query("nothing matches").as_deref(), Some("chatter"));
}

#[test]
fn planner_rejection_message() {
    assert_eq!(
        rejection_message("not enough VRAM", Some(RuntimeMode::PartialOffload)),
        "Planner rejected load: not enough VRAM. Suggestion: Some(PartialOffload)"
    );
    assert_eq!(rejection_message("x", None), "Planner rejected load: x. Suggestion: None");
    assert_eq!(
        rejection_message("x", Some(RuntimeMode::CpuOnly)),
        format!("Planner rejected load: x. Suggestion: {:?}", Some(RuntimeMode::CpuOnly))
    );
}

#[test]
fn download_verdicts() {
    assert_eq!(download_verdict(200, Some("application/octet-stream")), DownloadVerdict::Proceed);
    assert_eq!(download_verdict(206, None), DownloadVerdict::Proceed);
    assert_eq!(download_verdict(404, Some("text/html")), DownloadVerdict::StatusFailed);
    assert_eq!(download_verdict(301, None), DownloadVerdict::StatusFailed);
    assert_eq!(download_verdict(200, Some("text/html; charset=utf-8")), DownloadVerdict::HtmlReceived);
}

#[test]
fn registered_file_is_the_first_model_file() {
    let exts = vec![Some("json".to_string()), None, Some("safetensors".to_string()), Some("gguf".to_string())];
    assert_eq!(file_to_register(&exts), Some(2));
    assert_eq!(file_to_register(&vec![Some("json".to_string()), None]), None);
}

#[test]
fn legacy_variable_names() {
    assert_eq!(env_or_legacy(Some("a".to_string()), Some("b".to_string())), (Some("a".to_string()), false));
    assert_eq!(env_or_legacy(None, Some("b".to_string())), (Some("b".to_string()), true));
    assert_eq!(env_or_legacy(None, None), (None, false));
}

#[test]
fn vector_slots_keep_the_first_id_and_fill_holes_from_the_end() {
    let mut slots = zenllm::vector_slots::VectorSlots::new();
    let ids = vec!["a".to_string(), "b".to_string(), "a".to_string(), "c".to_string()];
    assert!(slots.add(&ids, &vec![3, 3, 3, 3], 3).is_ok());
    assert_eq!(slots.len(), 3);
    assert_eq!(slots.slot_of("c"), Some(2));
    assert!(slots.remove("a").is_ok());
    assert_eq!(slots.slot_of("c"), Some(0));
    assert_eq!(slots.slot_of("a"), None);
    assert_eq!(slots.remove("a").unwrap_err(), "ID not found");
    let more = vec!["d".to_string(), "e".to_string()];
    assert_eq!(slots.add(&more, &vec![3, 4], 3).unwrap_err(), "Vector dimension mismatch: expected 3, got 4");
    assert_eq!(slots.len(), 3);
    assert_eq!(slots.slot_of("d"), Some(2));
}

#[test]
fn estimate_ignores_ascii_case_and_counts_unknown_dtypes_as_f16() {
    let a = estimate_model_metadata("QWEN2-7B-INSTRUCT", "weird");
    let b = estimate_model_metadata("qwen2-7b-instruct", "f16");
    assert_eq!(a.num_parameters, b.num_parameters);
    assert_eq!(a.layer_count, b.layer_count);
    assert_eq!(a.estimated_vram_usage, b.estimated_vram_usage);
    assert_eq!(a.estimated_ram_usage, b.estimated_ram_usage);
    assert_eq!(a.model_dtype, "weird");
}
