//! What the runtime knows of the machine: CPU, memory and accelerators, and how it is
//! read from what the system and the vendor tools report.
use vstd::prelude::*;
use vstd::string::*;
use crate::text::{chars_of, copy_range, line_ranges, lines_of, parse_usize, parse_usize_spec, range_text,
    ranges_within, seq_contains, split_char, split_range, str_contains, trim, trim_range};

verus! {

/// Description of the host CPU.
#[derive(Debug, Clone)]
pub struct CpuInfo {
    pub cores: usize,
    pub vendor: String,
}

/// System memory, in bytes.
#[derive(Debug, Clone)]
pub struct MemoryInfo {
    pub ram_total: usize,
    pub ram_available: usize,
}

/// The family of an accelerator.
#[derive(Debug, Clone, PartialEq, Eq, Structural)]
pub enum AcceleratorType {
    Nvidia,
    Amd,
    Intel,
    AppleMetal,
    CpuOnly,
}

/// One detected accelerator and its memory, in bytes.
#[derive(Debug, Clone)]
pub struct AcceleratorInfo {
    pub kind: AcceleratorType,
    pub name: String,
    pub vram_total: usize,
    pub vram_available: usize,
    pub compute_capability: Option<String>,
}

/// Everything the planner reads about the machine.
#[derive(Debug, Clone)]
pub struct HardwareInfo {
    pub cpu: CpuInfo,
    pub memory: MemoryInfo,
    pub accelerators: Vec<AcceleratorInfo>,
}

/// Reads the machine's hardware.
pub struct HardwareDetector;

/// An accelerator as plain values: kind, name, total and available VRAM, compute capability.
pub type AcceleratorSpec = (AcceleratorType, Seq<char>, usize, usize, Option<Seq<char>>);

/// An accelerator as plain values.
pub open spec fn accelerator_view(a: AcceleratorInfo) -> AcceleratorSpec {
    (a.kind, a.name@, a.vram_total, a.vram_available, match a.compute_capability {
        Some(c) => Some(c@),
        None => None,
    })
}

/// The comma-separated fields of a line, trimmed.
pub open spec fn fields_of(line: Seq<char>) -> Seq<Seq<char>> {
    split_char(line, ',').map_values(|p: Seq<char>| trim(p))
}

/// A number field, 0 when it does not parse.
pub open spec fn number_or_zero(f: Seq<char>) -> usize {
    match parse_usize_spec(f) {
        Some(n) => n,
        None => 0,
    }
}

/// MiB to bytes, wrapping as release builds do.
pub open spec fn mib_to_bytes(n: usize) -> usize {
    vstd::wrapping::usize_specs::wrapping_mul(n, 1048576)
}

/// A line of `nvidia-smi --query-gpu=name,memory.total,memory.free,compute_cap
/// --format=csv,noheader,nounits`: exactly four fields, sizes in MiB.
pub open spec fn nvidia_line(line: Seq<char>) -> Option<AcceleratorSpec> {
    let f = fields_of(line);
    if f.len() == 4 {
        Some((AcceleratorType::Nvidia, f[0], mib_to_bytes(number_or_zero(f[1])), mib_to_bytes(number_or_zero(f[2])),
            Some(f[3])))
    } else {
        None
    }
}

/// A data line of `rocm-smi --showid --showmeminfo vram --csv`: at least four fields, the
/// second the device id, the third total VRAM, the fourth VRAM in use, in bytes.
pub open spec fn amd_line(line: Seq<char>) -> Option<AcceleratorSpec> {
    let f = fields_of(line);
    if f.len() >= 4 {
        let total = number_or_zero(f[2]);
        let used = number_or_zero(f[3]);
        Some((AcceleratorType::Amd, "AMD GPU "@ + f[1], total, if used > total { 0 } else { (total - used) as usize },
            None))
    } else {
        None
    }
}

/// A line of `sycl-ls` naming a Level Zero GPU, taken as an Intel GPU of 8 GB.
pub open spec fn intel_line(line: Seq<char>) -> Option<AcceleratorSpec> {
    if seq_contains(line, "ext_oneapi_level_zero"@) && seq_contains(line, "GPU"@) {
        Some((AcceleratorType::Intel, "Intel oneAPI GPU"@, 8_000_000_000u64 as usize, 8_000_000_000u64 as usize, None))
    } else {
        None
    }
}

/// The accelerators that the lines describe, one per line that describes one.
pub open spec fn collect_lines(lines: Seq<Seq<char>>, f: spec_fn(Seq<char>) -> Option<AcceleratorSpec>) -> Seq<
    AcceleratorSpec,
>
    decreases lines.len(),
{
    if lines.len() == 0 {
        Seq::empty()
    } else {
        let prev = collect_lines(lines.drop_last(), f);
        match f(lines.last()) {
            Some(a) => prev.push(a),
            None => prev,
        }
    }
}

/// The lines after the header line.
pub open spec fn after_header(lines: Seq<Seq<char>>) -> Seq<Seq<char>> {
    if lines.len() > 0 { lines.drop_first() } else { lines }
}

/// GPUs in the output of `nvidia-smi`, if it ran.
pub open spec fn nvidia_gpus(out: Option<String>) -> Seq<AcceleratorSpec> {
    match out {
        Some(o) => collect_lines(lines_of(o@), |l: Seq<char>| nvidia_line(l)),
        None => Seq::empty(),
    }
}

/// GPUs in the output of `rocm-smi`, if it ran.
pub open spec fn amd_gpus(out: Option<String>) -> Seq<AcceleratorSpec> {
    match out {
        Some(o) => collect_lines(after_header(lines_of(o@)), |l: Seq<char>| amd_line(l)),
        None => Seq::empty(),
    }
}

/// GPUs in the output of `sycl-ls`, if it ran.
pub open spec fn intel_gpus(out: Option<String>) -> Seq<AcceleratorSpec> {
    match out {
        Some(o) => collect_lines(lines_of(o@), |l: Seq<char>| intel_line(l)),
        None => Seq::empty(),
    }
}

/// The Apple GPU, sharing system memory, when `system_profiler` mentions one.
pub open spec fn apple_gpus(out: Option<String>, total: usize, available: usize) -> Seq<AcceleratorSpec> {
    match out {
        Some(o) => if seq_contains(o@, "Apple M"@) || seq_contains(o@, "Metal"@) {
            seq![(AcceleratorType::AppleMetal, "Apple Metal GPU"@, total, available, None::<Seq<char>>)]
        } else {
            Seq::empty()
        },
        None => Seq::empty(),
    }
}

/// What the system and the vendor tools reported: the CPUs' brand strings, system memory in
/// bytes, and the standard output of `nvidia-smi`, `rocm-smi`, `sycl-ls` and
/// `system_profiler` for each tool that ran successfully and printed UTF-8.
pub struct SystemProbe {
    pub cpu_brands: Vec<String>,
    pub ram_total: usize,
    pub ram_available: usize,
    pub nvidia_smi: Option<String>,
    pub rocm_smi: Option<String>,
    pub sycl_ls: Option<String>,
    pub system_profiler: Option<String>,
}

/// The accelerators a probe reports, NVIDIA first, then AMD, Intel and Apple; a CPU
/// placeholder when there is none.
pub open spec fn probe_accelerators(p: SystemProbe) -> Seq<AcceleratorSpec> {
    let found = nvidia_gpus(p.nvidia_smi) + amd_gpus(p.rocm_smi) + intel_gpus(p.sycl_ls) + apple_gpus(
        p.system_profiler, p.ram_total, p.ram_available);
    if found.len() == 0 {
        seq![(AcceleratorType::CpuOnly, "CPU Fallback"@, 0usize, 0usize, None::<Seq<char>>)]
    } else {
        found
    }
}

proof fn lemma_collect_kinds(lines: Seq<Seq<char>>, f: spec_fn(Seq<char>) -> Option<AcceleratorSpec>)
    requires
        forall|l: Seq<char>| (#[trigger] f(l)) matches Some(a) ==> a.0 != AcceleratorType::CpuOnly,
    ensures
        forall|i: int| 0 <= i < collect_lines(lines, f).len() ==> (#[trigger] collect_lines(lines, f)[i]).0
            != AcceleratorType::CpuOnly,
    decreases lines.len(),
{
    if lines.len() > 0 {
        lemma_collect_kinds(lines.drop_last(), f);
        let _ = f(lines.last());
    }
}

proof fn lemma_no_cpu_only(p: SystemProbe)
    ensures
        ({
            let found = nvidia_gpus(p.nvidia_smi) + amd_gpus(p.rocm_smi) + intel_gpus(p.sycl_ls) + apple_gpus(
                p.system_profiler, p.ram_total, p.ram_available);
            forall|i: int| 0 <= i < found.len() ==> (#[trigger] found[i]).0 != AcceleratorType::CpuOnly
        }),
{
    let fa = |l: Seq<char>| nvidia_line(l);
    let fb = |l: Seq<char>| amd_line(l);
    let fc = |l: Seq<char>| intel_line(l);
    if let Some(o) = p.nvidia_smi {
        lemma_collect_kinds(lines_of(o@), fa);
    }
    if let Some(o) = p.rocm_smi {
        lemma_collect_kinds(after_header(lines_of(o@)), fb);
    }
    if let Some(o) = p.sycl_ls {
        lemma_collect_kinds(lines_of(o@), fc);
    }
    let a = nvidia_gpus(p.nvidia_smi);
    let b = amd_gpus(p.rocm_smi);
    let c = intel_gpus(p.sycl_ls);
    let d = apple_gpus(p.system_profiler, p.ram_total, p.ram_available);
    assert forall|i: int| 0 <= i < (a + b + c + d).len() implies (#[trigger] (a + b + c + d)[i]).0
        != AcceleratorType::CpuOnly by {
        if i < a.len() {
            assert((a + b + c + d)[i] == a[i]);
        } else if i < a.len() + b.len() {
            assert((a + b + c + d)[i] == b[i - a.len()]);
        } else if i < a.len() + b.len() + c.len() {
            assert((a + b + c + d)[i] == c[i - a.len() - b.len()]);
        } else {
            assert((a + b + c + d)[i] == d[i - a.len() - b.len() - c.len()]);
        }
    }
}

/// Law: detection always reports at least one accelerator, and the CPU placeholder only when
/// no vendor tool reported any: then it is the only entry, and otherwise no entry is CPU-only.
pub proof fn law_detection_never_empty(p: SystemProbe)
    ensures
        probe_accelerators(p).len() > 0,
        probe_accelerators(p)[0].0 == AcceleratorType::CpuOnly <==> (nvidia_gpus(p.nvidia_smi) + amd_gpus(p.rocm_smi)
            + intel_gpus(p.sycl_ls) + apple_gpus(p.system_profiler, p.ram_total, p.ram_available)).len() == 0,
        forall|i: int| 0 <= i < probe_accelerators(p).len() && (#[trigger] probe_accelerators(p)[i]).0
            == AcceleratorType::CpuOnly ==> probe_accelerators(p).len() == 1,
{
    let found = nvidia_gpus(p.nvidia_smi) + amd_gpus(p.rocm_smi) + intel_gpus(p.sycl_ls) + apple_gpus(
        p.system_profiler, p.ram_total, p.ram_available);
    if found.len() > 0 {
        lemma_no_cpu_only(p);
        assert(found[0].0 != AcceleratorType::CpuOnly);
    }
}

/// The trimmed comma-separated fields of `v[a..b]`, as character ranges.
fn line_fields(v: &Vec<char>, a: usize, b: usize) -> (r: Vec<(usize, usize)>)
    requires
        a <= b <= v@.len(),
    ensures
        ranges_within(r@, 0, v@.len() as int),
        r@.map_values(|q: (usize, usize)| range_text(v@, q)) == fields_of(v@.subrange(a as int, b as int)),
{
    let pieces = split_range(v, a, b, ',');
    let ghost sp = split_char(v@.subrange(a as int, b as int), ',');
    let mut r: Vec<(usize, usize)> = Vec::new();
    let mut k: usize = 0;
    while k < pieces.len()
        invariant
            k <= pieces@.len(),
            ranges_within(pieces@, a as int, b as int),
            b <= v@.len(),
            pieces@.map_values(|q: (usize, usize)| range_text(v@, q)) == sp,
            ranges_within(r@, 0, v@.len() as int),
            r@.map_values(|q: (usize, usize)| range_text(v@, q)) == sp.take(k as int).map_values(|p: Seq<char>| trim(p)),
        decreases pieces@.len() - k,
    {
        let (x, y) = pieces[k];
        let t = trim_range(v, x, y);
        let ghost before = r@.map_values(|q: (usize, usize)| range_text(v@, q));
        r.push(t);
        proof {
            assert(sp[k as int] == range_text(v@, (x, y)));
            assert(r@.map_values(|q: (usize, usize)| range_text(v@, q)) =~= before.push(trim(sp[k as int])));
            assert(sp.take(k + 1).map_values(|p: Seq<char>| trim(p)) =~= sp.take(k as int).map_values(|p: Seq<char>|
                trim(p)).push(trim(sp[k as int])));
        }
        k = k + 1;
    }
    assert(sp.take(k as int) =~= sp);
    r
}

fn field_number(v: &Vec<char>, q: (usize, usize)) -> (n: usize)
    requires
        q.0 <= q.1 <= v@.len(),
    ensures
        n == number_or_zero(range_text(v@, q)),
{
    match parse_usize(&copy_range(v, q.0, q.1)) {
        Some(n) => n,
        None => 0,
    }
}

fn field_string(out: &str, v: &Vec<char>, q: (usize, usize)) -> (s: String)
    requires
        v@ == out@,
        q.0 <= q.1 <= v@.len(),
    ensures
        s@ == range_text(v@, q),
{
    String::from_str(out.substring_char(q.0, q.1))
}

fn nvidia_from_line(out: &str, v: &Vec<char>, a: usize, b: usize) -> (r: Option<AcceleratorInfo>)
    requires
        v@ == out@,
        a <= b <= v@.len(),
    ensures
        match r {
            Some(acc) => nvidia_line(v@.subrange(a as int, b as int)) == Some(accelerator_view(acc)),
            None => nvidia_line(v@.subrange(a as int, b as int)) is None,
        },
{
    let f = line_fields(v, a, b);
    let ghost fs = fields_of(v@.subrange(a as int, b as int));
    if f.len() != 4 {
        return None;
    }
    assert(fs[0] == range_text(v@, f@[0]) && fs[1] == range_text(v@, f@[1]));
    assert(fs[2] == range_text(v@, f@[2]) && fs[3] == range_text(v@, f@[3]));
    let total = field_number(v, f[1]).wrapping_mul(1048576);
    let available = field_number(v, f[2]).wrapping_mul(1048576);
    Some(AcceleratorInfo {
        kind: AcceleratorType::Nvidia,
        name: field_string(out, v, f[0]),
        vram_total: total,
        vram_available: available,
        compute_capability: Some(field_string(out, v, f[3])),
    })
}

fn amd_from_line(out: &str, v: &Vec<char>, a: usize, b: usize) -> (r: Option<AcceleratorInfo>)
    requires
        v@ == out@,
        a <= b <= v@.len(),
    ensures
        match r {
            Some(acc) => amd_line(v@.subrange(a as int, b as int)) == Some(accelerator_view(acc)),
            None => amd_line(v@.subrange(a as int, b as int)) is None,
        },
{
    let f = line_fields(v, a, b);
    let ghost fs = fields_of(v@.subrange(a as int, b as int));
    if f.len() < 4 {
        return None;
    }
    assert(fs[1] == range_text(v@, f@[1]) && fs[2] == range_text(v@, f@[2]) && fs[3] == range_text(v@, f@[3]));
    let total = field_number(v, f[2]);
    let used = field_number(v, f[3]);
    let id = field_string(out, v, f[1]);
    Some(AcceleratorInfo {
        kind: AcceleratorType::Amd,
        name: String::from_str("AMD GPU ").concat(id.as_str()),
        vram_total: total,
        vram_available: total.saturating_sub(used),
        compute_capability: None,
    })
}

fn intel_from_line(out: &str, v: &Vec<char>, a: usize, b: usize) -> (r: Option<AcceleratorInfo>)
    requires
        v@ == out@,
        a <= b <= v@.len(),
        usize::MAX == u64::MAX,
    ensures
        match r {
            Some(acc) => intel_line(v@.subrange(a as int, b as int)) == Some(accelerator_view(acc)),
            None => intel_line(v@.subrange(a as int, b as int)) is None,
        },
{
    let line = out.substring_char(a, b);
    if str_contains(line, "ext_oneapi_level_zero") && str_contains(line, "GPU") {
        let size: u64 = 8_000_000_000;
        Some(AcceleratorInfo {
            kind: AcceleratorType::Intel,
            name: String::from_str("Intel oneAPI GPU"),
            vram_total: size as usize,
            vram_available: size as usize,
            compute_capability: None,
        })
    } else {
        None
    }
}

/// Which vendor tool's output is being read.
enum ToolKind {
    Nvidia,
    Amd,
    Intel,
}

/// Accelerators as plain values.
pub open spec fn accelerators_view(v: Seq<AcceleratorInfo>) -> Seq<AcceleratorSpec> {
    v.map_values(|a: AcceleratorInfo| accelerator_view(a))
}

/// Appends the accelerators described by the lines of `out` (after the header line for
/// `rocm-smi`).
fn append_tool_gpus(accs: &mut Vec<AcceleratorInfo>, out: &str, kind: ToolKind)
    requires
        usize::MAX == u64::MAX,
    ensures
        accelerators_view(final(accs)@) == accelerators_view(old(accs)@) + match kind {
            ToolKind::Nvidia => collect_lines(lines_of(out@), |l: Seq<char>| nvidia_line(l)),
            ToolKind::Amd => collect_lines(after_header(lines_of(out@)), |l: Seq<char>| amd_line(l)),
            ToolKind::Intel => collect_lines(lines_of(out@), |l: Seq<char>| intel_line(l)),
        },
{
    let v = chars_of(out);
    let lines = line_ranges(&v);
    let ghost ls = lines_of(v@);
    let ghost f: spec_fn(Seq<char>) -> Option<AcceleratorSpec> = match kind {
        ToolKind::Nvidia => |l: Seq<char>| nvidia_line(l),
        ToolKind::Amd => |l: Seq<char>| amd_line(l),
        ToolKind::Intel => |l: Seq<char>| intel_line(l),
    };
    let first: usize = match kind {
        ToolKind::Amd => if lines.len() > 0 { 1 } else { 0 },
        _ => 0,
    };
    let ghost used = ls.skip(first as int);
    assert(used == match kind {
        ToolKind::Amd => after_header(ls),
        _ => ls,
    }) by {
        assert(ls.skip(0) =~= ls);
        if ls.len() > 0 {
            assert(ls.skip(1) =~= ls.drop_first());
        }
    }
    let ghost base = accelerators_view(accs@);
    let mut k = first;
    assert(used.take(0) =~= Seq::<Seq<char>>::empty());
    assert(base + collect_lines(used.take(0), f) =~= base);
    while k < lines.len()
        invariant
            first <= k <= lines@.len(),
            v@ == out@,
            usize::MAX == u64::MAX,
            ranges_within(lines@, 0, v@.len() as int),
            lines@.map_values(|q: (usize, usize)| range_text(v@, q)) == ls,
            used == ls.skip(first as int),
            f == (match kind {
                ToolKind::Nvidia => |l: Seq<char>| nvidia_line(l),
                ToolKind::Amd => |l: Seq<char>| amd_line(l),
                ToolKind::Intel => |l: Seq<char>| intel_line(l),
            }),
            accelerators_view(accs@) == base + collect_lines(used.take(k - first), f),
        decreases lines@.len() - k,
    {
        let (a, b) = lines[k];
        let ghost line = v@.subrange(a as int, b as int);
        assert(ls[k as int] == line);
        assert(used.take(k + 1 - first).drop_last() =~= used.take(k - first));
        assert(used.take(k + 1 - first).last() == line);
        let found = match kind {
            ToolKind::Nvidia => nvidia_from_line(out, &v, a, b),
            ToolKind::Amd => amd_from_line(out, &v, a, b),
            ToolKind::Intel => intel_from_line(out, &v, a, b),
        };
        let ghost before = accs@;
        match found {
            Some(acc) => {
                accs.push(acc);
                assert(accelerators_view(accs@) =~= accelerators_view(before).push(accelerator_view(acc)));
            },
            None => {},
        }
        k = k + 1;
    }
    assert(used.take(k - first) =~= used);
}

impl HardwareDetector {
    /// What the machine has, read from a probe of it (see `probe_accelerators`): the CPU count
    /// and the first CPU's brand ("Unknown" when none is listed), system memory, and the
    /// accelerators the vendor tools report.
    pub fn detect(probe: SystemProbe) -> (h: HardwareInfo)
        requires
            usize::MAX == u64::MAX,
        ensures
            h.cpu.cores == probe.cpu_brands@.len(),
            h.cpu.vendor@ == if probe.cpu_brands@.len() > 0 { probe.cpu_brands@[0]@ } else { "Unknown"@ },
            h.memory.ram_total == probe.ram_total,
            h.memory.ram_available == probe.ram_available,
            accelerators_view(h.accelerators@) == probe_accelerators(probe),
    {
        let vendor = if probe.cpu_brands.len() > 0 {
            probe.cpu_brands[0].clone()
        } else {
            String::from_str("Unknown")
        };
        let cpu = CpuInfo { cores: probe.cpu_brands.len(), vendor };
        let memory = MemoryInfo { ram_total: probe.ram_total, ram_available: probe.ram_available };
        let mut accelerators: Vec<AcceleratorInfo> = Vec::new();
        assert(accelerators_view(accelerators@) =~= Seq::<AcceleratorSpec>::empty());
        match &probe.nvidia_smi {
            Some(o) => append_tool_gpus(&mut accelerators, o.as_str(), ToolKind::Nvidia),
            None => {},
        }
        assert(accelerators_view(accelerators@) =~= nvidia_gpus(probe.nvidia_smi));
        match &probe.rocm_smi {
            Some(o) => append_tool_gpus(&mut accelerators, o.as_str(), ToolKind::Amd),
            None => {},
        }
        assert(accelerators_view(accelerators@) =~= nvidia_gpus(probe.nvidia_smi) + amd_gpus(probe.rocm_smi));
        match &probe.sycl_ls {
            Some(o) => append_tool_gpus(&mut accelerators, o.as_str(), ToolKind::Intel),
            None => {},
        }
        assert(accelerators_view(accelerators@) =~= nvidia_gpus(probe.nvidia_smi) + amd_gpus(probe.rocm_smi)
            + intel_gpus(probe.sycl_ls));
        match &probe.system_profiler {
            Some(o) => {
                if str_contains(o.as_str(), "Apple M") || str_contains(o.as_str(), "Metal") {
                    let ghost before = accelerators@;
                    accelerators.push(AcceleratorInfo {
                        kind: AcceleratorType::AppleMetal,
                        name: String::from_str("Apple Metal GPU"),
                        vram_total: probe.ram_total,
                        vram_available: probe.ram_available,
                        compute_capability: None,
                    });
                    assert(accelerators_view(accelerators@) =~= accelerators_view(before).push(
                        (AcceleratorType::AppleMetal, "Apple Metal GPU"@, probe.ram_total, probe.ram_available,
                        None::<Seq<char>>)));
                }
            },
            None => {},
        }
        let ghost found = nvidia_gpus(probe.nvidia_smi) + amd_gpus(probe.rocm_smi) + intel_gpus(probe.sycl_ls)
            + apple_gpus(probe.system_profiler, probe.ram_total, probe.ram_available);
        assert(accelerators_view(accelerators@) =~= found);
        if accelerators.len() == 0 {
            accelerators.push(AcceleratorInfo {
                kind: AcceleratorType::CpuOnly,
                name: String::from_str("CPU Fallback"),
                vram_total: 0,
                vram_available: 0,
                compute_capability: None,
            });
            assert(accelerators_view(accelerators@) =~= probe_accelerators(probe));
        }
        HardwareInfo { cpu, memory, accelerators }
    }
}

} // verus!
