//! Turning a planner decision into launch settings, and naming what the planner used.
use vstd::prelude::*;
use crate::hardware::HardwareInfo;
use crate::model_meta::{estimate_sizes_match, estimate_model_metadata};
use crate::planner::{LoadPlan, PlannerInput, RuntimeMode};
use crate::registry::opt_view;
use crate::text::{chars_of, decimal, lowercase, parse_usize, parse_usize_spec, seq_contains, str_contains, str_eq,
    to_lowercase, usize_to_decimal};

verus! {

/// Device settings of a launch: CPU execution, and the `device:layers` split, if any.
pub struct DeviceSettings {
    pub cpu: bool,
    pub device_layers: Option<Vec<String>>,
}

/// The device-layer setting as character sequences.
pub open spec fn layers_view(d: Option<Vec<String>>) -> Option<Seq<Seq<char>>> {
    match d {
        Some(v) => Some(v@.map_values(|s: String| s@)),
        None => None,
    }
}

/// The device-layer setting that puts `n` layers on device 0.
pub open spec fn first_device_layers(n: nat) -> Seq<Seq<char>> {
    seq!["0:"@ + decimal(n)]
}

/// The device settings a plan asks for: GPU only clears the CPU flag and any split; CPU only
/// and streaming set it and clear the split; a partial offload clears the flag and, when no
/// split was given, takes the GPU layer count from the user's `--gpu-layers` value (when it is
/// a number; a value other than "auto" that is not a number leaves no split) or, for "auto",
/// from the plan. Other modes leave the settings as they were.
pub open spec fn settings_for_plan(
    selected: RuntimeMode,
    plan_gpu_layers: Option<usize>,
    gpu_layers_arg: Seq<char>,
    cpu: bool,
    layers: Option<Seq<Seq<char>>>,
) -> (bool, Option<Seq<Seq<char>>>) {
    match selected {
        RuntimeMode::GpuOnly => (false, None),
        RuntimeMode::CpuOnly => (true, None),
        RuntimeMode::FlexLoad => (true, None),
        RuntimeMode::PartialOffload => (false, if layers is Some {
            layers
        } else if gpu_layers_arg != "auto"@ {
            match parse_usize_spec(gpu_layers_arg) {
                Some(n) => Some(first_device_layers(n as nat)),
                None => None,
            }
        } else {
            match plan_gpu_layers {
                Some(g) => Some(first_device_layers(g as nat)),
                None => None,
            }
        }),
        _ => (cpu, layers),
    }
}

fn device_layers_for(n: usize) -> (v: Vec<String>)
    ensures
        v@.map_values(|s: String| s@) == first_device_layers(n as nat),
{
    let mut v: Vec<String> = Vec::new();
    v.push(String::from_str("0:").concat(usize_to_decimal(n).as_str()));
    assert(v@.map_values(|s: String| s@) =~= first_device_layers(n as nat));
    v
}

/// Applies an accepted plan to the launch's device settings (see `settings_for_plan`);
/// `gpu_layers_arg` is the user's `--gpu-layers` value.
pub fn apply_plan(plan: &LoadPlan, gpu_layers_arg: &str, settings: DeviceSettings) -> (r: DeviceSettings)
    ensures
        (r.cpu, layers_view(r.device_layers)) == settings_for_plan(plan.selected_mode, plan.gpu_layers,
            gpu_layers_arg@, settings.cpu, layers_view(settings.device_layers)),
{
    match plan.selected_mode {
        RuntimeMode::GpuOnly => DeviceSettings { cpu: false, device_layers: None },
        RuntimeMode::CpuOnly => DeviceSettings { cpu: true, device_layers: None },
        RuntimeMode::FlexLoad => DeviceSettings { cpu: true, device_layers: None },
        RuntimeMode::PartialOffload => {
            if settings.device_layers.is_some() {
                DeviceSettings { cpu: false, device_layers: settings.device_layers }
            } else if !str_eq(gpu_layers_arg, "auto") {
                match parse_usize(&chars_of(gpu_layers_arg)) {
                    Some(n) => DeviceSettings { cpu: false, device_layers: Some(device_layers_for(n)) },
                    None => DeviceSettings { cpu: false, device_layers: None },
                }
            } else {
                match plan.gpu_layers {
                    Some(g) => DeviceSettings { cpu: false, device_layers: Some(device_layers_for(g)) },
                    None => DeviceSettings { cpu: false, device_layers: None },
                }
            }
        },
        _ => settings,
    }
}

/// What applying a plan does to the device settings, mode by mode: a GPU-only plan clears the
/// CPU flag and the split; a CPU-only plan and a streaming (FlexLoad) plan set the CPU flag and
/// clear the split; a partial offload clears the CPU flag, keeps a split that was given, and
/// otherwise puts on device 0 the number the user gave with `--gpu-layers` (nothing when that is
/// not a number) or, for "auto", the plan's GPU layer count; automatic and multi-GPU plans leave
/// the settings unchanged.
pub proof fn law_plan_settings(
    selected: RuntimeMode,
    plan_gpu_layers: Option<usize>,
    gpu_layers_arg: Seq<char>,
    cpu: bool,
    layers: Option<Seq<Seq<char>>>,
)
    ensures
        ({
            let (c, l) = settings_for_plan(selected, plan_gpu_layers, gpu_layers_arg, cpu, layers);
            &&& selected == RuntimeMode::GpuOnly ==> !c && l is None
            &&& selected == RuntimeMode::CpuOnly ==> c && l is None
            &&& selected == RuntimeMode::FlexLoad ==> c && l is None
            &&& selected == RuntimeMode::PartialOffload ==> !c
            &&& (selected == RuntimeMode::PartialOffload && layers is Some) ==> l == layers
            &&& (selected == RuntimeMode::PartialOffload && layers is None && gpu_layers_arg != "auto"@)
                ==> (l == match parse_usize_spec(gpu_layers_arg) {
                    Some(n) => Some(seq!["0:"@ + decimal(n as nat)]),
                    None => None::<Seq<Seq<char>>>,
                })
            &&& (selected == RuntimeMode::PartialOffload && layers is None && gpu_layers_arg == "auto"@)
                ==> (l == match plan_gpu_layers {
                    Some(g) => Some(seq!["0:"@ + decimal(g as nat)]),
                    None => None::<Seq<Seq<char>>>,
                })
            &&& (selected == RuntimeMode::Auto || selected == RuntimeMode::MultiGpu) ==> c == cpu && l == layers
        }),
{
}

/// The command-line name of a runtime mode.
pub open spec fn mode_name(m: RuntimeMode) -> Seq<char> {
    match m {
        RuntimeMode::Auto => "auto"@,
        RuntimeMode::GpuOnly => "gpu-only"@,
        RuntimeMode::CpuOnly => "cpu-only"@,
        RuntimeMode::PartialOffload => "partial-offload"@,
        RuntimeMode::FlexLoad => "flexload"@,
        RuntimeMode::MultiGpu => "multi-gpu"@,
    }
}

/// The command-line name of a runtime mode.
pub fn runtime_mode_name(m: RuntimeMode) -> (s: &'static str)
    ensures
        s@ == mode_name(m),
{
    match m {
        RuntimeMode::Auto => "auto",
        RuntimeMode::GpuOnly => "gpu-only",
        RuntimeMode::CpuOnly => "cpu-only",
        RuntimeMode::PartialOffload => "partial-offload",
        RuntimeMode::FlexLoad => "flexload",
        RuntimeMode::MultiGpu => "multi-gpu",
    }
}

/// The name a runtime mode is printed with in diagnostics (its variant's name).
pub open spec fn mode_variant_name(m: RuntimeMode) -> Seq<char> {
    match m {
        RuntimeMode::Auto => "Auto"@,
        RuntimeMode::GpuOnly => "GpuOnly"@,
        RuntimeMode::CpuOnly => "CpuOnly"@,
        RuntimeMode::PartialOffload => "PartialOffload"@,
        RuntimeMode::FlexLoad => "FlexLoad"@,
        RuntimeMode::MultiGpu => "MultiGpu"@,
    }
}

/// How an optional suggested mode is printed: `Some(Mode)` or `None`.
pub open spec fn suggestion_text(s: Option<RuntimeMode>) -> Seq<char> {
    match s {
        Some(m) => "Some("@ + mode_variant_name(m) + ")"@,
        None => "None"@,
    }
}

/// The message a run ends with when the planner rejects the load:
/// `Planner rejected load: {reason}. Suggestion: {suggestion}`.
pub fn rejection_message(reason: &str, suggestion: Option<RuntimeMode>) -> (s: String)
    ensures
        s@ == "Planner rejected load: "@ + reason@ + ". Suggestion: "@ + suggestion_text(suggestion),
{
    let head = String::from_str("Planner rejected load: ").concat(reason).concat(". Suggestion: ");
    match suggestion {
        Some(m) => {
            let name = match m {
                RuntimeMode::Auto => "Auto",
                RuntimeMode::GpuOnly => "GpuOnly",
                RuntimeMode::CpuOnly => "CpuOnly",
                RuntimeMode::PartialOffload => "PartialOffload",
                RuntimeMode::FlexLoad => "FlexLoad",
                RuntimeMode::MultiGpu => "MultiGpu",
            };
            let r = head.concat("Some(").concat(name).concat(")");
            assert(r@ =~= "Planner rejected load: "@ + reason@ + ". Suggestion: "@ + suggestion_text(suggestion));
            r
        },
        None => {
            let r = head.concat("None");
            assert(r@ =~= "Planner rejected load: "@ + reason@ + ". Suggestion: "@ + suggestion_text(suggestion));
            r
        },
    }
}

/// The quantization assumed for a model: the known one, else one named in its lowercased
/// id (q4_0, then q8, then q2_k), else f16.
pub open spec fn guessed_quantization(known: Option<Seq<char>>, lower_model: Seq<char>) -> Seq<char> {
    match known {
        Some(q) => q,
        None => if seq_contains(lower_model, "q4_0"@) {
            "q4_0"@
        } else if seq_contains(lower_model, "q8"@) {
            "q8"@
        } else if seq_contains(lower_model, "q2_k"@) {
            "q2_k"@
        } else {
            "f16"@
        },
    }
}

/// The quantization assumed for `model` (see `guessed_quantization`), the model id being
/// compared case-insensitively.
pub fn guess_quantization(known: Option<String>, model: &str) -> (q: String)
    ensures
        q@ == guessed_quantization(opt_view(known), lowercase(model@)),
{
    let lower = to_lowercase(model);
    quantization_for_lowercase(known, lower.as_str())
}

/// The quantization assumed for a model whose lowercased id is given (see
/// `guessed_quantization`).
pub fn quantization_for_lowercase(known: Option<String>, lower_model: &str) -> (q: String)
    ensures
        q@ == guessed_quantization(opt_view(known), lower_model@),
{
    match known {
        Some(k) => k,
        None => {
            if str_contains(lower_model, "q4_0") {
                String::from_str("q4_0")
            } else if str_contains(lower_model, "q8") {
                String::from_str("q8")
            } else if str_contains(lower_model, "q2_k") {
                String::from_str("q2_k")
            } else {
                String::from_str("f16")
            }
        },
    }
}

/// The planner input for planning a registered model (`runtime plan`): the size estimate for
/// the model name at its quantization (the recorded one, else the one guessed from the name,
/// see `guessed_quantization`), with the recorded context length when there is one, planned
/// in auto mode with fallback allowed.
pub fn plan_input_for_record(
    hardware: HardwareInfo,
    model: &str,
    record: &crate::registry::ModelMetadata,
    cuda_enabled: bool,
    metal_enabled: bool,
) -> (input: PlannerInput)
    requires
        usize::MAX == u64::MAX,
    ensures
        ({
            let q = guessed_quantization(opt_view(record.quantization), lowercase(model@));
            let m = input.metadata;
            &&& estimate_sizes_match(m, lowercase(model@), lowercase(q), q)
            &&& m.format@ == "safetensors"@
            &&& m.context_window == match record.context_length {
                Some(c) => c,
                None => 8192,
            }
        }),
        input.hardware == hardware,
        input.requested_mode == RuntimeMode::Auto,
        input.fallback_allowed,
        input.cuda_enabled == cuda_enabled,
        input.metal_enabled == metal_enabled,
{
    let quant = guess_quantization(record.quantization.clone(), model);
    let mut metadata = estimate_model_metadata(model, quant.as_str());
    if let Some(ctx) = record.context_length {
        metadata.context_window = ctx;
    }
    PlannerInput {
        hardware,
        metadata,
        requested_mode: RuntimeMode::Auto,
        fallback_allowed: true,
        cuda_enabled,
        metal_enabled,
    }
}

/// The planner input for running a model: the size estimate for its id at f16, with the
/// format of the weights being loaded, in the requested mode, with fallback allowed unless
/// GPU-only was asked for.
pub fn plan_input_for_run(
    hardware: HardwareInfo,
    model_id: &str,
    format: String,
    mode: RuntimeMode,
    cuda_enabled: bool,
    metal_enabled: bool,
) -> (input: PlannerInput)
    requires
        usize::MAX == u64::MAX,
    ensures
        estimate_sizes_match(input.metadata, lowercase(model_id@), lowercase("f16"@), "f16"@),
        input.metadata.context_window == 8192,
        input.metadata.format@ == format@,
        input.hardware == hardware,
        input.requested_mode == mode,
        input.fallback_allowed == (mode != RuntimeMode::GpuOnly),
        input.cuda_enabled == cuda_enabled,
        input.metal_enabled == metal_enabled,
{
    let mut metadata = estimate_model_metadata(model_id, "f16");
    metadata.format = format;
    PlannerInput {
        hardware,
        metadata,
        requested_mode: mode,
        fallback_allowed: !matches!(mode, RuntimeMode::GpuOnly),
        cuda_enabled,
        metal_enabled,
    }
}

} // verus!
