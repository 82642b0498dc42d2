//! The load planner: from the machine, the model's estimated footprint and the requested
//! runtime mode to a placement of the model's layers (or a refusal).
use vstd::prelude::*;
use crate::hardware::{AcceleratorInfo, AcceleratorType, HardwareInfo};
use crate::model_meta::ModelMetadata;
use crate::text::{decimal, str_eq, usize_to_decimal};

verus! {

/// How the model is to be executed.
#[derive(Debug, Clone, Copy, PartialEq, Eq, Structural)]
pub enum RuntimeMode {
    Auto,
    GpuOnly,
    CpuOnly,
    PartialOffload,
    FlexLoad,
    MultiGpu,
}

/// Everything the planner decides from.
#[derive(Debug, Clone)]
pub struct PlannerInput {
    pub hardware: HardwareInfo,
    pub metadata: ModelMetadata,
    pub requested_mode: RuntimeMode,
    pub fallback_allowed: bool,
    pub cuda_enabled: bool,
    pub metal_enabled: bool,
}

/// Tensor-parallel layout (reserved; the planner does not produce one yet).
#[derive(Debug, Clone)]
pub struct TensorParallelPlan {
    pub world_size: usize,
    pub backend: String,
}

/// An accepted placement of the model.
#[derive(Debug, Clone)]
pub struct LoadPlan {
    pub requested_mode: RuntimeMode,
    pub selected_mode: RuntimeMode,
    pub gpu_layers: Option<usize>,
    pub cpu_layers: Option<usize>,
    pub accelerator_name: Option<String>,
    pub fallback_used: bool,
    pub reason: String,
    pub tensor_parallel: Option<TensorParallelPlan>,
}

/// The planner's answer.
#[derive(Debug, Clone)]
pub enum PlannerDecision {
    Accepted(LoadPlan),
    Rejected { reason: String, suggestion: Option<RuntimeMode> },
}

/// A load plan with its strings as character sequences.
pub struct LoadPlanView {
    pub requested_mode: RuntimeMode,
    pub selected_mode: RuntimeMode,
    pub gpu_layers: Option<usize>,
    pub cpu_layers: Option<usize>,
    pub accelerator_name: Option<Seq<char>>,
    pub fallback_used: bool,
    pub reason: Seq<char>,
    pub tensor_parallel: Option<(usize, Seq<char>)>,
}

/// A planner decision with its strings as character sequences.
pub enum PlannerDecisionView {
    Accepted(LoadPlanView),
    Rejected { reason: Seq<char>, suggestion: Option<RuntimeMode> },
}

/// An optional string as an optional character sequence.
pub open spec fn opt_string_view(s: Option<String>) -> Option<Seq<char>> {
    match s {
        Some(x) => Some(x@),
        None => None,
    }
}

impl View for LoadPlan {
    type V = LoadPlanView;

    open spec fn view(&self) -> LoadPlanView {
        LoadPlanView {
            requested_mode: self.requested_mode,
            selected_mode: self.selected_mode,
            gpu_layers: self.gpu_layers,
            cpu_layers: self.cpu_layers,
            accelerator_name: opt_string_view(self.accelerator_name),
            fallback_used: self.fallback_used,
            reason: self.reason@,
            tensor_parallel: match self.tensor_parallel {
                Some(t) => Some((t.world_size, t.backend@)),
                None => None,
            },
        }
    }
}

impl View for PlannerDecision {
    type V = PlannerDecisionView;

    open spec fn view(&self) -> PlannerDecisionView {
        match self {
            PlannerDecision::Accepted(p) => PlannerDecisionView::Accepted(p@),
            PlannerDecision::Rejected { reason, suggestion } => PlannerDecisionView::Rejected {
                reason: reason@,
                suggestion: *suggestion,
            },
        }
    }
}

/// Below this much usable VRAM (500 MiB) partial offload is not attempted.
pub const MIN_PARTIAL_OFFLOAD_BYTES: usize = 524288000;

/// Accelerator `i` is the one the planner uses: not a CPU placeholder, with the most
/// available VRAM, and the last such one when several tie.
pub open spec fn is_best_accelerator(accs: Seq<AcceleratorInfo>, i: int) -> bool {
    &&& 0 <= i < accs.len()
    &&& accs[i].kind != AcceleratorType::CpuOnly
    &&& forall|j: int| 0 <= j < accs.len() && accs[j].kind != AcceleratorType::CpuOnly
            ==> #[trigger] accs[j].vram_available <= accs[i].vram_available
    &&& forall|j: int| i < j < accs.len() && accs[j].kind != AcceleratorType::CpuOnly
            ==> #[trigger] accs[j].vram_available < accs[i].vram_available
}

/// The index of the accelerator the planner uses, if any.
pub open spec fn best_accelerator(accs: Seq<AcceleratorInfo>) -> Option<int> {
    if exists|i: int| is_best_accelerator(accs, i) {
        Some(choose|i: int| is_best_accelerator(accs, i))
    } else {
        None
    }
}

/// The chosen accelerator is one this binary cannot drive (CUDA or Metal left out).
pub open spec fn accelerator_disabled(input: PlannerInput, a: AcceleratorInfo) -> bool {
    ||| a.kind == AcceleratorType::Nvidia && !input.cuda_enabled
    ||| a.kind == AcceleratorType::AppleMetal && !input.metal_enabled
}

/// VRAM the planner may use: that of the chosen accelerator, or 0 when there is none or
/// it cannot be driven.
pub open spec fn usable_vram(input: PlannerInput) -> usize {
    let accs = input.hardware.accelerators@;
    match best_accelerator(accs) {
        Some(i) => if accelerator_disabled(input, accs[i]) { 0 } else { accs[i].vram_available },
        None => 0,
    }
}

/// Why an NVIDIA card cannot be used by a build without CUDA.
pub open spec fn no_cuda_message() -> Seq<char> {
    "NVIDIA GPU detected, but current binary was built without CUDA feature. Falling back to CPU-only."@
}

/// Why Apple silicon cannot be used by a build without Metal.
pub open spec fn no_metal_message() -> Seq<char> {
    "Apple Silicon detected, but current binary was built without Metal feature. Falling back to CPU-only."@
}

/// Why the chosen accelerator was set aside, if it was.
pub open spec fn unusable_reason(input: PlannerInput) -> Option<Seq<char>> {
    let accs = input.hardware.accelerators@;
    match best_accelerator(accs) {
        Some(i) => if accs[i].kind == AcceleratorType::Nvidia && !input.cuda_enabled {
            Some(no_cuda_message())
        } else if accs[i].kind == AcceleratorType::AppleMetal && !input.metal_enabled {
            Some(no_metal_message())
        } else {
            None
        },
        None => None,
    }
}

/// Name of the chosen accelerator, if any.
pub open spec fn best_accelerator_name(input: PlannerInput) -> Option<Seq<char>> {
    let accs = input.hardware.accelerators@;
    match best_accelerator(accs) {
        Some(i) => Some(accs[i].name@),
        None => None,
    }
}

/// Layers that fit in the usable VRAM, at the model's average bytes per layer
/// (both divisors taken as at least 1).
pub open spec fn fit_layers(input: PlannerInput) -> nat {
    let m = input.metadata;
    let per_layer = m.estimated_vram_usage as nat / (if m.layer_count == 0 { 1nat } else { m.layer_count as nat });
    usable_vram(input) as nat / (if per_layer == 0 { 1nat } else { per_layer })
}

/// `a - b`, or 0 when `b > a`.
pub open spec fn sat_sub(a: nat, b: nat) -> nat {
    if b > a { 0 } else { (a - b) as nat }
}

/// A load plan built from plain values.
pub open spec fn plan_view(
    requested: RuntimeMode,
    selected: RuntimeMode,
    gpu: Option<usize>,
    cpu: Option<usize>,
    name: Option<Seq<char>>,
    fallback: bool,
    reason: Seq<char>,
) -> PlannerDecisionView {
    PlannerDecisionView::Accepted(LoadPlanView {
        requested_mode: requested,
        selected_mode: selected,
        gpu_layers: gpu,
        cpu_layers: cpu,
        accelerator_name: name,
        fallback_used: fallback,
        reason: reason,
        tensor_parallel: None,
    })
}

/// The given reason, or `default` when there is none.
pub open spec fn reason_or(r: Option<Seq<char>>, default: Seq<char>) -> Seq<char> {
    match r {
        Some(x) => x,
        None => default,
    }
}

/// The decision in automatic mode: all layers on the GPU when the usable VRAM holds the
/// model, a partial offload when more than 500 MiB of it is usable, CPU only when RAM holds
/// the model, and layer streaming otherwise.
pub open spec fn auto_decision(input: PlannerInput) -> PlannerDecisionView {
    let vram = usable_vram(input);
    let m = input.metadata;
    let fit = fit_layers(input);
    if vram >= m.estimated_vram_usage {
        plan_view(RuntimeMode::Auto, RuntimeMode::GpuOnly, Some(m.layer_count), Some(0),
            best_accelerator_name(input), false, "Sufficient VRAM available for full GPU offload."@)
    } else if vram > MIN_PARTIAL_OFFLOAD_BYTES {
        plan_view(RuntimeMode::Auto, RuntimeMode::PartialOffload, Some(fit as usize),
            Some(sat_sub(m.layer_count as nat, fit) as usize), best_accelerator_name(input), false,
            "Partial offload: "@ + decimal(fit) + " layers fit in VRAM."@)
    } else if input.hardware.memory.ram_available >= m.estimated_ram_usage {
        plan_view(RuntimeMode::Auto, RuntimeMode::CpuOnly, Some(0), Some(m.layer_count), None, false,
            reason_or(unusable_reason(input), "Insufficient VRAM. Sufficient RAM available for CPU-only."@))
    } else {
        plan_view(RuntimeMode::Auto, RuntimeMode::FlexLoad, None, None, None, false,
            reason_or(unusable_reason(input),
                "Insufficient RAM and VRAM. Falling back to low-memory FlexLoad streaming."@))
    }
}

/// An automatic-mode decision handed back for a GPU-only request whose fallback was taken.
pub open spec fn as_gpu_fallback(d: PlannerDecisionView) -> PlannerDecisionView {
    match d {
        PlannerDecisionView::Accepted(p) => PlannerDecisionView::Accepted(LoadPlanView {
            requested_mode: RuntimeMode::GpuOnly,
            fallback_used: true,
            reason: "Fallback triggered: "@ + p.reason,
            ..p
        }),
        other => other,
    }
}

/// The planner's decision for every input.
pub open spec fn planned_decision(input: PlannerInput) -> PlannerDecisionView {
    let vram = usable_vram(input);
    let m = input.metadata;
    let ram = input.hardware.memory.ram_available;
    let fit = fit_layers(input);
    match input.requested_mode {
        RuntimeMode::Auto => auto_decision(input),
        RuntimeMode::GpuOnly => if vram >= m.estimated_vram_usage {
            plan_view(RuntimeMode::GpuOnly, RuntimeMode::GpuOnly, Some(m.layer_count), Some(0),
                best_accelerator_name(input), false, "User requested GpuOnly. Sufficient VRAM available."@)
        } else if input.fallback_allowed {
            as_gpu_fallback(auto_decision(input))
        } else {
            PlannerDecisionView::Rejected {
                reason: "User requested GpuOnly, but insufficient VRAM is available. Fallback is disabled."@,
                suggestion: Some(RuntimeMode::Auto),
            }
        },
        RuntimeMode::CpuOnly => if ram >= m.estimated_ram_usage {
            plan_view(RuntimeMode::CpuOnly, RuntimeMode::CpuOnly, Some(0), Some(m.layer_count), None, false,
                "User requested CpuOnly. Sufficient RAM available."@)
        } else if input.fallback_allowed {
            plan_view(RuntimeMode::CpuOnly, RuntimeMode::FlexLoad, None, None, None, true,
                "Fallback triggered: Insufficient RAM for CPU-only, using FlexLoad."@)
        } else {
            PlannerDecisionView::Rejected {
                reason: "User requested CpuOnly, but insufficient RAM is available. Fallback is disabled."@,
                suggestion: Some(RuntimeMode::FlexLoad),
            }
        },
        RuntimeMode::PartialOffload => if vram > MIN_PARTIAL_OFFLOAD_BYTES {
            plan_view(RuntimeMode::PartialOffload, RuntimeMode::PartialOffload, Some(fit as usize),
                Some(sat_sub(m.layer_count as nat, fit) as usize), best_accelerator_name(input), false,
                "User requested PartialOffload. "@ + decimal(fit) + " layers fit in VRAM."@)
        } else if input.fallback_allowed {
            if ram >= m.estimated_ram_usage {
                plan_view(RuntimeMode::PartialOffload, RuntimeMode::CpuOnly, Some(0), Some(m.layer_count), None,
                    true, "Fallback triggered: Insufficient VRAM for partial offload. Using CPU-only."@)
            } else {
                plan_view(RuntimeMode::PartialOffload, RuntimeMode::FlexLoad, None, None, None, true,
                    "Fallback triggered: Insufficient RAM/VRAM. Using FlexLoad."@)
            }
        } else {
            PlannerDecisionView::Rejected {
                reason: "User requested PartialOffload, but insufficient VRAM is available. Fallback is disabled."@,
                suggestion: Some(RuntimeMode::CpuOnly),
            }
        },
        RuntimeMode::FlexLoad => if m.format@ == "gguf"@ {
            plan_view(RuntimeMode::FlexLoad,
                if vram > MIN_PARTIAL_OFFLOAD_BYTES { RuntimeMode::PartialOffload } else { RuntimeMode::CpuOnly },
                None, None, None, true,
                "FlexLoad streaming currently supports Safetensor models only. Falling back to non-streaming mode."@)
        } else {
            plan_view(RuntimeMode::FlexLoad, RuntimeMode::FlexLoad, None, None, None, false,
                "User requested FlexLoad ultra-low-memory streaming."@)
        },
        RuntimeMode::MultiGpu => PlannerDecisionView::Rejected {
            reason: "MultiGpu mode is currently unimplemented in the execution layer. Coming soon."@,
            suggestion: Some(RuntimeMode::GpuOnly),
        },
    }
}

/// Law: an accepted plan records the mode that was asked for, and never selects `Auto` or
/// `MultiGpu` as the mode to run in.
pub proof fn law_plan_records_request(input: PlannerInput)
    ensures
        planned_decision(input) matches PlannerDecisionView::Accepted(p) ==> {
            &&& p.requested_mode == input.requested_mode
            &&& p.selected_mode != RuntimeMode::Auto
            &&& p.selected_mode != RuntimeMode::MultiGpu
        },
{
}

/// Law: automatic and streaming requests are always accepted; any other request is refused
/// only when fallback is disabled (or, for multi-GPU, always).
pub proof fn law_rejection_only_without_fallback(input: PlannerInput)
    ensures
        planned_decision(input) is Rejected ==> {
            ||| input.requested_mode == RuntimeMode::MultiGpu
            ||| !input.fallback_allowed && (input.requested_mode == RuntimeMode::GpuOnly
                || input.requested_mode == RuntimeMode::CpuOnly
                || input.requested_mode == RuntimeMode::PartialOffload)
        },
        input.requested_mode == RuntimeMode::Auto ==> planned_decision(input) is Accepted,
        input.requested_mode == RuntimeMode::FlexLoad ==> planned_decision(input) is Accepted,
{
}

/// Law: for an explicit request, the plan says a fallback was used exactly when it runs the
/// model in another mode than the one requested.
pub proof fn law_fallback_flag_is_mode_change(input: PlannerInput)
    requires
        input.requested_mode != RuntimeMode::Auto,
    ensures
        planned_decision(input) matches PlannerDecisionView::Accepted(p) ==> (p.fallback_used
            <==> p.selected_mode != p.requested_mode),
{
}

/// Law: a plan never puts more on a device than it holds. Full GPU placement happens only when
/// the usable VRAM holds the model's estimate, and puts every layer there; a partial offload
/// happens only above 500 MiB of usable VRAM, and its GPU layers at the average layer size fit
/// in that VRAM, the rest going to the CPU; CPU-only placement (unless streaming was requested)
/// happens only when RAM holds the model's estimate.
pub proof fn law_placement_fits_capacity(input: PlannerInput)
    ensures
        planned_decision(input) matches PlannerDecisionView::Accepted(p) ==> {
            let m = input.metadata;
            let per_layer = m.estimated_vram_usage as nat / (if m.layer_count == 0 { 1nat } else {
                m.layer_count as nat });
            let unit = if per_layer == 0 { 1nat } else { per_layer };
            &&& p.selected_mode == RuntimeMode::GpuOnly ==> {
                &&& usable_vram(input) >= m.estimated_vram_usage
                &&& p.gpu_layers == Some(m.layer_count)
                &&& p.cpu_layers == Some(0usize)
            }
            &&& (p.selected_mode == RuntimeMode::PartialOffload && p.requested_mode != RuntimeMode::FlexLoad)
                ==> {
                &&& usable_vram(input) > MIN_PARTIAL_OFFLOAD_BYTES
                &&& p.gpu_layers matches Some(g) && g * unit <= usable_vram(input)
                &&& p.cpu_layers == Some(sat_sub(m.layer_count as nat, p.gpu_layers->0 as nat) as usize)
            }
            &&& (p.selected_mode == RuntimeMode::CpuOnly && p.requested_mode != RuntimeMode::FlexLoad)
                ==> input.hardware.memory.ram_available >= m.estimated_ram_usage
        },
{
    let m = input.metadata;
    let per_layer = m.estimated_vram_usage as nat / (if m.layer_count == 0 { 1nat } else {
        m.layer_count as nat });
    let unit = if per_layer == 0 { 1nat } else { per_layer };
    let v = usable_vram(input) as nat;
    let fit = fit_layers(input);
    assert(fit == v / unit);
    assert(fit * unit <= v) by (nonlinear_arith)
        requires fit == v / unit, unit > 0;
    assert(fit <= v) by (nonlinear_arith)
        requires fit == v / unit, unit > 0;
}

/// Law: a GPU-only request that does not fit, with fallback allowed, is answered with the
/// automatic-mode plan for the same machine and model, marked as a fallback from GPU-only and
/// with its reason prefixed by "Fallback triggered: ".
pub proof fn law_gpu_fallback_is_auto_plan(input: PlannerInput)
    requires
        input.requested_mode == RuntimeMode::GpuOnly,
        input.fallback_allowed,
        usable_vram(input) < input.metadata.estimated_vram_usage,
    ensures
        planned_decision(input) == as_gpu_fallback(planned_decision(PlannerInput {
            requested_mode: RuntimeMode::Auto,
            fallback_allowed: false,
            ..input
        })),
{
    let auto_input = PlannerInput { requested_mode: RuntimeMode::Auto, fallback_allowed: false, ..input };
    assert(usable_vram(auto_input) == usable_vram(input));
    assert(best_accelerator_name(auto_input) == best_accelerator_name(input));
    assert(unusable_reason(auto_input) == unusable_reason(input));
    assert(fit_layers(auto_input) == fit_layers(input));
    assert(auto_decision(auto_input) == auto_decision(input));
}

/// Law: when the accelerator with the most VRAM cannot be driven by this binary (no CUDA for
/// an NVIDIA card, no Metal for Apple silicon), no layer is placed on a GPU, for a model that
/// needs any VRAM at all.
pub proof fn law_disabled_accelerator_gets_no_layers(input: PlannerInput)
    requires
        best_accelerator(input.hardware.accelerators@) matches Some(i)
            && accelerator_disabled(input, input.hardware.accelerators@[i]),
        input.metadata.estimated_vram_usage > 0,
    ensures
        planned_decision(input) matches PlannerDecisionView::Accepted(p) ==> {
            &&& p.selected_mode != RuntimeMode::GpuOnly
            &&& p.selected_mode != RuntimeMode::PartialOffload
        },
{
}

/// Lemma: at most one accelerator is the best one.
proof fn lemma_best_unique(accs: Seq<AcceleratorInfo>, i: int, j: int)
    requires
        is_best_accelerator(accs, i),
        is_best_accelerator(accs, j),
    ensures
        i == j,
{
    if i < j {
        assert(accs[j].vram_available < accs[i].vram_available);
        assert(accs[i].vram_available <= accs[j].vram_available);
    } else if j < i {
        assert(accs[i].vram_available < accs[j].vram_available);
        assert(accs[j].vram_available <= accs[i].vram_available);
    }
}

fn is_cpu_placeholder(k: &AcceleratorType) -> (r: bool)
    ensures
        r == (*k == AcceleratorType::CpuOnly),
{
    match k {
        AcceleratorType::CpuOnly => true,
        _ => false,
    }
}

/// The index of the accelerator with the most available VRAM (the last one on ties),
/// CPU placeholders left out.
pub fn best_accelerator_index(accs: &Vec<AcceleratorInfo>) -> (r: Option<usize>)
    ensures
        match r {
            Some(i) => best_accelerator(accs@) == Some(i as int),
            None => best_accelerator(accs@) is None,
        },
{
    let mut best: Option<usize> = None;
    let mut i: usize = 0;
    while i < accs.len()
        invariant
            i <= accs@.len(),
            match best {
                Some(b) => is_best_accelerator(accs@.subrange(0, i as int), b as int),
                None => forall|j: int| 0 <= j < i ==> (#[trigger] accs@[j]).kind == AcceleratorType::CpuOnly,
            },
        decreases accs@.len() - i,
    {
        let ghost prefix = accs@.subrange(0, i as int);
        let ghost next = accs@.subrange(0, i + 1);
        if !is_cpu_placeholder(&accs[i].kind) {
            let take = match best {
                None => true,
                Some(b) => accs[i].vram_available >= accs[b].vram_available,
            };
            if take {
                proof {
                    assert forall|j: int| 0 <= j < next.len() && next[j].kind != AcceleratorType::CpuOnly
                        implies #[trigger] next[j].vram_available <= next[i as int].vram_available by {
                        if j < i {
                            assert(next[j] == prefix[j]);
                        }
                    }
                }
                best = Some(i);
            } else {
                proof {
                    let b = best.unwrap() as int;
                    assert(prefix[b] == next[b]);
                    assert forall|j: int| 0 <= j < next.len() && next[j].kind != AcceleratorType::CpuOnly
                        implies #[trigger] next[j].vram_available <= next[b].vram_available by {
                        if j < i {
                            assert(next[j] == prefix[j]);
                        }
                    }
                    assert forall|j: int| b < j < next.len() && next[j].kind != AcceleratorType::CpuOnly
                        implies #[trigger] next[j].vram_available < next[b].vram_available by {
                        if j < i {
                            assert(next[j] == prefix[j]);
                        }
                    }
                }
            }
        } else {
            proof {
                match best {
                    Some(b) => {
                        let b = b as int;
                        assert(prefix[b] == next[b]);
                        assert forall|j: int| 0 <= j < next.len() && next[j].kind != AcceleratorType::CpuOnly
                            implies #[trigger] next[j].vram_available <= next[b].vram_available by {
                            assert(next[j] == prefix[j]);
                        }
                        assert forall|j: int| b < j < next.len() && next[j].kind != AcceleratorType::CpuOnly
                            implies #[trigger] next[j].vram_available < next[b].vram_available by {
                            assert(next[j] == prefix[j]);
                        }
                    },
                    None => {},
                }
            }
        }
        i = i + 1;
    }
    assert(accs@.subrange(0, i as int) =~= accs@);
    proof {
        match best {
            Some(b) => {
                lemma_best_pick(accs@, b as int);
            },
            None => {
                assert(!exists|j: int| is_best_accelerator(accs@, j));
            },
        }
    }
    best
}

/// Lemma: a best accelerator is what `best_accelerator` picks.
proof fn lemma_best_pick(accs: Seq<AcceleratorInfo>, b: int)
    requires
        is_best_accelerator(accs, b),
    ensures
        best_accelerator(accs) == Some(b),
{
    let c = choose|i: int| is_best_accelerator(accs, i);
    lemma_best_unique(accs, b, c);
}

/// The VRAM the planner may use and, when the chosen accelerator is set aside, why.
fn usable_vram_exec(input: &PlannerInput, best: Option<usize>) -> (r: (usize, Option<&'static str>))
    requires
        match best {
            Some(i) => best_accelerator(input.hardware.accelerators@) == Some(i as int),
            None => best_accelerator(input.hardware.accelerators@) is None,
        },
    ensures
        r.0 == usable_vram(*input),
        match r.1 {
            Some(s) => unusable_reason(*input) == Some(s@),
            None => unusable_reason(*input) is None,
        },
{
    match best {
        None => (0, None),
        Some(i) => {
            let acc = &input.hardware.accelerators[i];
            match acc.kind {
                AcceleratorType::Nvidia => if !input.cuda_enabled {
                    (0, Some("NVIDIA GPU detected, but current binary was built without CUDA feature. Falling back to CPU-only."))
                } else {
                    (acc.vram_available, None)
                },
                AcceleratorType::AppleMetal => if !input.metal_enabled {
                    (0, Some("Apple Silicon detected, but current binary was built without Metal feature. Falling back to CPU-only."))
                } else {
                    (acc.vram_available, None)
                },
                _ => (acc.vram_available, None),
            }
        },
    }
}

fn reason_text(unusable: Option<&'static str>, default: &'static str) -> (s: String)
    ensures
        s@ == reason_or(match unusable { Some(u) => Some(u@), None => None }, default@),
{
    match unusable {
        Some(u) => String::from_str(u),
        None => String::from_str(default),
    }
}

/// Layers that fit in `vram` at the model's average bytes per layer.
fn fit_layers_exec(input: &PlannerInput, vram: usize) -> (fit: usize)
    requires
        vram == usable_vram(*input),
    ensures
        fit as nat == fit_layers(*input),
{
    let m = &input.metadata;
    let layers = if m.layer_count == 0 { 1 } else { m.layer_count };
    let per_layer = m.estimated_vram_usage / layers;
    let per_layer = if per_layer == 0 { 1 } else { per_layer };
    vram / per_layer
}

fn accepted(
    requested: RuntimeMode,
    selected: RuntimeMode,
    gpu: Option<usize>,
    cpu: Option<usize>,
    name: Option<String>,
    fallback: bool,
    reason: String,
) -> (d: PlannerDecision)
    ensures
        d@ == plan_view(requested, selected, gpu, cpu, opt_string_view(name), fallback, reason@),
{
    PlannerDecision::Accepted(LoadPlan {
        requested_mode: requested,
        selected_mode: selected,
        gpu_layers: gpu,
        cpu_layers: cpu,
        accelerator_name: name,
        fallback_used: fallback,
        reason,
        tensor_parallel: None,
    })
}

fn rejected(reason: &'static str, suggestion: RuntimeMode) -> (d: PlannerDecision)
    ensures
        d@ == (PlannerDecisionView::Rejected { reason: reason@, suggestion: Some(suggestion) }),
{
    PlannerDecision::Rejected { reason: String::from_str(reason), suggestion: Some(suggestion) }
}

/// The decision in automatic mode (see `auto_decision`).
fn auto_plan(
    input: &PlannerInput,
    vram: usize,
    name: Option<String>,
    unusable: Option<&'static str>,
) -> (d: PlannerDecision)
    requires
        vram == usable_vram(*input),
        opt_string_view(name) == best_accelerator_name(*input),
        match unusable {
            Some(s) => unusable_reason(*input) == Some(s@),
            None => unusable_reason(*input) is None,
        },
    ensures
        d@ == auto_decision(*input),
{
    let m = &input.metadata;
    if vram >= m.estimated_vram_usage {
        accepted(RuntimeMode::Auto, RuntimeMode::GpuOnly, Some(m.layer_count), Some(0), name, false,
            String::from_str("Sufficient VRAM available for full GPU offload."))
    } else if vram > MIN_PARTIAL_OFFLOAD_BYTES {
        let fit = fit_layers_exec(input, vram);
        let cpu = if fit > m.layer_count { 0 } else { m.layer_count - fit };
        let reason = String::from_str("Partial offload: ").concat(usize_to_decimal(fit).as_str()).concat(
            " layers fit in VRAM.");
        accepted(RuntimeMode::Auto, RuntimeMode::PartialOffload, Some(fit), Some(cpu), name, false, reason)
    } else if input.hardware.memory.ram_available >= m.estimated_ram_usage {
        accepted(RuntimeMode::Auto, RuntimeMode::CpuOnly, Some(0), Some(m.layer_count), None, false,
            reason_text(unusable, "Insufficient VRAM. Sufficient RAM available for CPU-only."))
    } else {
        accepted(RuntimeMode::Auto, RuntimeMode::FlexLoad, None, None, None, false,
            reason_text(unusable, "Insufficient RAM and VRAM. Falling back to low-memory FlexLoad streaming."))
    }
}

/// Decides where the model's layers go. Automatic mode picks the best placement that fits
/// (see `auto_decision`); an explicit mode is honoured when it fits, falls back when
/// `fallback_allowed`, and is rejected with a suggestion otherwise. The exact decision for
/// every input is `planned_decision`.
pub fn create_load_plan(input: &PlannerInput) -> (d: PlannerDecision)
    ensures
        d@ == planned_decision(*input),
{
    let best = best_accelerator_index(&input.hardware.accelerators);
    let (vram, unusable) = usable_vram_exec(input, best);
    let name: Option<String> = match best {
        Some(i) => Some(input.hardware.accelerators[i].name.clone()),
        None => None,
    };
    let m = &input.metadata;
    let ram = input.hardware.memory.ram_available;
    match input.requested_mode {
        RuntimeMode::Auto => auto_plan(input, vram, name, unusable),
        RuntimeMode::GpuOnly => {
            if vram >= m.estimated_vram_usage {
                accepted(RuntimeMode::GpuOnly, RuntimeMode::GpuOnly, Some(m.layer_count), Some(0), name, false,
                    String::from_str("User requested GpuOnly. Sufficient VRAM available."))
            } else if input.fallback_allowed {
                let fallback = auto_plan(input, vram, name, unusable);
                match fallback {
                    PlannerDecision::Accepted(plan) => {
                        let reason = String::from_str("Fallback triggered: ").concat(plan.reason.as_str());
                        PlannerDecision::Accepted(LoadPlan {
                            requested_mode: RuntimeMode::GpuOnly,
                            fallback_used: true,
                            reason,
                            ..plan
                        })
                    },
                    other => other,
                }
            } else {
                rejected("User requested GpuOnly, but insufficient VRAM is available. Fallback is disabled.",
                    RuntimeMode::Auto)
            }
        },
        RuntimeMode::CpuOnly => {
            if ram >= m.estimated_ram_usage {
                accepted(RuntimeMode::CpuOnly, RuntimeMode::CpuOnly, Some(0), Some(m.layer_count), None, false,
                    String::from_str("User requested CpuOnly. Sufficient RAM available."))
            } else if input.fallback_allowed {
                accepted(RuntimeMode::CpuOnly, RuntimeMode::FlexLoad, None, None, None, true,
                    String::from_str("Fallback triggered: Insufficient RAM for CPU-only, using FlexLoad."))
            } else {
                rejected("User requested CpuOnly, but insufficient RAM is available. Fallback is disabled.",
                    RuntimeMode::FlexLoad)
            }
        },
        RuntimeMode::PartialOffload => {
            if vram > MIN_PARTIAL_OFFLOAD_BYTES {
                let fit = fit_layers_exec(input, vram);
                let cpu = if fit > m.layer_count { 0 } else { m.layer_count - fit };
                let reason = String::from_str("User requested PartialOffload. ").concat(
                    usize_to_decimal(fit).as_str()).concat(" layers fit in VRAM.");
                accepted(RuntimeMode::PartialOffload, RuntimeMode::PartialOffload, Some(fit), Some(cpu), name,
                    false, reason)
            } else if input.fallback_allowed {
                if ram >= m.estimated_ram_usage {
                    accepted(RuntimeMode::PartialOffload, RuntimeMode::CpuOnly, Some(0), Some(m.layer_count), None,
                        true, String::from_str(
                            "Fallback triggered: Insufficient VRAM for partial offload. Using CPU-only."))
                } else {
                    accepted(RuntimeMode::PartialOffload, RuntimeMode::FlexLoad, None, None, None, true,
                        String::from_str("Fallback triggered: Insufficient RAM/VRAM. Using FlexLoad."))
                }
            } else {
                rejected(
                    "User requested PartialOffload, but insufficient VRAM is available. Fallback is disabled.",
                    RuntimeMode::CpuOnly)
            }
        },
        RuntimeMode::FlexLoad => {
            if str_eq(m.format.as_str(), "gguf") {
                let selected = if vram > MIN_PARTIAL_OFFLOAD_BYTES {
                    RuntimeMode::PartialOffload
                } else {
                    RuntimeMode::CpuOnly
                };
                accepted(RuntimeMode::FlexLoad, selected, None, None, None, true, String::from_str(
                    "FlexLoad streaming currently supports Safetensor models only. Falling back to non-streaming mode."))
            } else {
                accepted(RuntimeMode::FlexLoad, RuntimeMode::FlexLoad, None, None, None, false,
                    String::from_str("User requested FlexLoad ultra-low-memory streaming."))
            }
        },
        RuntimeMode::MultiGpu => rejected(
            "MultiGpu mode is currently unimplemented in the execution layer. Coming soon.",
            RuntimeMode::GpuOnly),
    }
}

/// What an accepted decision places: the selected mode, the GPU and CPU layer counts and
/// whether a fallback was taken; `None` for a refusal.
pub open spec fn placement(d: PlannerDecisionView) -> Option<(RuntimeMode, Option<usize>, Option<usize>, bool)> {
    match d {
        PlannerDecisionView::Accepted(p) => Some((p.selected_mode, p.gpu_layers, p.cpu_layers, p.fallback_used)),
        PlannerDecisionView::Rejected { .. } => None,
    }
}

/// The mode a refusal suggests; `None` for an accepted plan.
pub open spec fn refusal_suggestion(d: PlannerDecisionView) -> Option<Option<RuntimeMode>> {
    match d {
        PlannerDecisionView::Accepted(_) => None,
        PlannerDecisionView::Rejected { suggestion, .. } => Some(suggestion),
    }
}

/// `gpu` and `cpu` split a model of `layers` layers whose average layer takes `per` bytes
/// when `vram` bytes are usable: `gpu` is the number of whole average layers that fit in
/// `vram`, and the CPU takes the layers left (none when `gpu` covers them all).
pub open spec fn split_fits(vram: nat, per: nat, layers: nat, gpu: nat, cpu: nat) -> bool {
    &&& gpu * per <= vram
    &&& vram < (gpu + 1) * per
    &&& if gpu <= layers { cpu + gpu == layers } else { cpu == 0 }
}

proof fn lemma_quotient(v: nat, per: nat)
    requires
        per > 0,
    ensures
        (v / per) * per <= v,
        v < (v / per + 1) * per,
        v / per <= v,
{
    vstd::arithmetic::div_mod::lemma_fundamental_div_mod(v as int, per as int);
    vstd::arithmetic::div_mod::lemma_mod_bound(v as int, per as int);
    let q = v / per;
    let r = v % per;
    assert(v == per * q + r);
    assert(q * per <= v) by (nonlinear_arith)
        requires
            v == per * q + r,
            r >= 0,
    ;
    assert(v < (q + 1) * per) by (nonlinear_arith)
        requires
            v == per * q + r,
            r < per,
    ;
    assert(q <= v) by (nonlinear_arith)
        requires
            q * per <= v,
            per >= 1,
            q >= 0,
    ;
}

/// The GPU/CPU split the planner gives for a partial offload fits the usable VRAM as
/// `split_fits` says, at the model's average layer size.
proof fn lemma_fit_split(input: PlannerInput)
    ensures
        ({
            let m = input.metadata;
            let lc = m.layer_count as nat;
            let per0 = m.estimated_vram_usage as nat / (if lc == 0 { 1nat } else { lc });
            let per = if per0 == 0 { 1nat } else { per0 };
            let g = fit_layers(input);
            &&& g <= usable_vram(input)
            &&& split_fits(usable_vram(input) as nat, per, lc, g, sat_sub(lc, g))
        }),
{
    let m = input.metadata;
    let lc = m.layer_count as nat;
    let per0 = m.estimated_vram_usage as nat / (if lc == 0 { 1nat } else { lc });
    let per = if per0 == 0 { 1nat } else { per0 };
    lemma_quotient(usable_vram(input) as nat, per);
}

/// Law: in automatic mode the plan follows from the usable VRAM `v` (that of the best
/// accelerator the binary can drive) and the RAM: every layer on the GPU when `v` holds the
/// model's VRAM estimate; otherwise, when `v` is above 500 MiB, a partial offload whatever
/// the RAM, with as many whole average layers (the VRAM estimate over the layer count) on the
/// GPU as fit in `v` and the rest on the CPU; otherwise CPU only when the RAM holds the
/// model's RAM estimate, and layer streaming when it does not. No fallback is recorded.
pub proof fn law_auto_mode_choice(input: PlannerInput)
    requires
        input.requested_mode == RuntimeMode::Auto,
    ensures
        ({
            let d = planned_decision(input);
            let v = usable_vram(input) as nat;
            let m = input.metadata;
            let lc = m.layer_count as nat;
            let per0 = m.estimated_vram_usage as nat / (if lc == 0 { 1nat } else { lc });
            let per = if per0 == 0 { 1nat } else { per0 };
            &&& v >= m.estimated_vram_usage ==> placement(d) == Some(
                (RuntimeMode::GpuOnly, Some(m.layer_count), Some(0usize), false),
            )
            &&& v < m.estimated_vram_usage && v > MIN_PARTIAL_OFFLOAD_BYTES ==> (placement(d) matches Some(
                (mode, Some(g), Some(c), fb),
            ) && mode == RuntimeMode::PartialOffload && !fb && split_fits(v, per, lc, g as nat, c as nat))
            &&& v < m.estimated_vram_usage && v <= MIN_PARTIAL_OFFLOAD_BYTES && input.hardware.memory.ram_available
                >= m.estimated_ram_usage ==> placement(d) == Some(
                (RuntimeMode::CpuOnly, Some(0usize), Some(m.layer_count), false),
            )
            &&& v < m.estimated_vram_usage && v <= MIN_PARTIAL_OFFLOAD_BYTES && input.hardware.memory.ram_available
                < m.estimated_ram_usage ==> placement(d) == Some(
                (RuntimeMode::FlexLoad, None::<usize>, None::<usize>, false),
            )
        }),
{
    lemma_fit_split(input);
}

/// Law: an explicit mode is honoured when the machine allows it, falls back only when
/// fallback is allowed, and is refused with a suggestion otherwise: GPU only needs the usable
/// VRAM to hold the model (else the automatic plan, marked as a fallback, or a refusal
/// suggesting `Auto`); CPU only needs the RAM to hold it (else streaming as a fallback, or a
/// refusal suggesting `FlexLoad`); a partial offload needs more than 500 MiB of usable VRAM and
/// then splits the layers as the automatic plan does (else CPU only or streaming by the RAM,
/// as a fallback, or a refusal suggesting `CpuOnly`); streaming is given for any model but a
/// GGUF one, which runs partially offloaded or on the CPU instead; several GPUs are refused,
/// suggesting `GpuOnly`.
pub proof fn law_explicit_mode_choice(input: PlannerInput)
    ensures
        ({
            let d = planned_decision(input);
            let v = usable_vram(input) as nat;
            let m = input.metadata;
            let ram = input.hardware.memory.ram_available;
            let lc = m.layer_count as nat;
            let per0 = m.estimated_vram_usage as nat / (if lc == 0 { 1nat } else { lc });
            let per = if per0 == 0 { 1nat } else { per0 };
            &&& input.requested_mode == RuntimeMode::GpuOnly ==> {
                &&& v >= m.estimated_vram_usage ==> placement(d) == Some(
                    (RuntimeMode::GpuOnly, Some(m.layer_count), Some(0usize), false),
                )
                &&& v < m.estimated_vram_usage && input.fallback_allowed ==> (placement(d) matches Some((mode, _, _, fb))
                    && fb && mode != RuntimeMode::GpuOnly)
                &&& v < m.estimated_vram_usage && !input.fallback_allowed ==> refusal_suggestion(d) == Some(
                    Some(RuntimeMode::Auto),
                )
            }
            &&& input.requested_mode == RuntimeMode::CpuOnly ==> {
                &&& ram >= m.estimated_ram_usage ==> placement(d) == Some(
                    (RuntimeMode::CpuOnly, Some(0usize), Some(m.layer_count), false),
                )
                &&& ram < m.estimated_ram_usage && input.fallback_allowed ==> placement(d) == Some(
                    (RuntimeMode::FlexLoad, None::<usize>, None::<usize>, true),
                )
                &&& ram < m.estimated_ram_usage && !input.fallback_allowed ==> refusal_suggestion(d) == Some(
                    Some(RuntimeMode::FlexLoad),
                )
            }
            &&& input.requested_mode == RuntimeMode::PartialOffload ==> {
                &&& v > MIN_PARTIAL_OFFLOAD_BYTES ==> (placement(d) matches Some((mode, Some(g), Some(c), fb))
                    && mode == RuntimeMode::PartialOffload && !fb && split_fits(v, per, lc, g as nat, c as nat))
                &&& v <= MIN_PARTIAL_OFFLOAD_BYTES && input.fallback_allowed && ram >= m.estimated_ram_usage
                    ==> placement(d) == Some((RuntimeMode::CpuOnly, Some(0usize), Some(m.layer_count), true))
                &&& v <= MIN_PARTIAL_OFFLOAD_BYTES && input.fallback_allowed && ram < m.estimated_ram_usage
                    ==> placement(d) == Some((RuntimeMode::FlexLoad, None::<usize>, None::<usize>, true))
                &&& v <= MIN_PARTIAL_OFFLOAD_BYTES && !input.fallback_allowed ==> refusal_suggestion(d) == Some(
                    Some(RuntimeMode::CpuOnly),
                )
            }
            &&& input.requested_mode == RuntimeMode::FlexLoad ==> {
                &&& m.format@ != "gguf"@ ==> placement(d) == Some(
                    (RuntimeMode::FlexLoad, None::<usize>, None::<usize>, false),
                )
                &&& m.format@ == "gguf"@ && v > MIN_PARTIAL_OFFLOAD_BYTES ==> placement(d) == Some(
                    (RuntimeMode::PartialOffload, None::<usize>, None::<usize>, true),
                )
                &&& m.format@ == "gguf"@ && v <= MIN_PARTIAL_OFFLOAD_BYTES ==> placement(d) == Some(
                    (RuntimeMode::CpuOnly, None::<usize>, None::<usize>, true),
                )
            }
            &&& input.requested_mode == RuntimeMode::MultiGpu ==> refusal_suggestion(d) == Some(
                Some(RuntimeMode::GpuOnly),
            )
        }),
{
    lemma_fit_split(input);
}

} // verus!
