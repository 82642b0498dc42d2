//! Size estimates of a model, guessed from its name and data type.
use vstd::prelude::*;
use crate::text::{ascii_lowercase, ascii_uppercase, is_ascii_text, seq_contains, lowercase, to_lowercase, str_contains, str_eq};

verus! {

/// Estimated footprint of a model.
#[derive(Debug, Clone)]
pub struct ModelMetadata {
    pub num_parameters: usize,
    pub model_dtype: String,
    pub estimated_vram_usage: usize,
    pub estimated_ram_usage: usize,
    pub layer_count: usize,
    pub context_window: usize,
    pub format: String,
}

/// Parameter count guessed from a lowercased model name: the first size tag that occurs
/// wins, in the order 8b, 0.5b, 1.5b/1b, 3b, 14b, 32b, 70b/72b; 7B when none occurs.
pub open spec fn param_count_for(lower_id: Seq<char>) -> nat {
    if seq_contains(lower_id, "8b"@) {
        8_000_000_000
    } else if seq_contains(lower_id, "0.5b"@) {
        500_000_000
    } else if seq_contains(lower_id, "1.5b"@) || seq_contains(lower_id, "1b"@) {
        1_500_000_000
    } else if seq_contains(lower_id, "3b"@) {
        3_000_000_000
    } else if seq_contains(lower_id, "14b"@) {
        14_000_000_000
    } else if seq_contains(lower_id, "32b"@) {
        32_000_000_000
    } else if seq_contains(lower_id, "70b"@) || seq_contains(lower_id, "72b"@) {
        70_000_000_000
    } else {
        7_000_000_000
    }
}

/// Bytes per parameter, counted in half bytes, for a lowercased data type name:
/// 4 bytes for f32, 2 for 16-bit floats, 1 for 8-bit, half a byte for 4-bit, 2 otherwise.
pub open spec fn half_bytes_per_param(lower_dtype: Seq<char>) -> nat {
    if lower_dtype == "f32"@ || lower_dtype == "float32"@ {
        8
    } else if lower_dtype == "f16"@ || lower_dtype == "float16"@ || lower_dtype == "bf16"@
        || lower_dtype == "bfloat16"@ {
        4
    } else if lower_dtype == "int8"@ || lower_dtype == "q8"@ {
        2
    } else if lower_dtype == "int4"@ || lower_dtype == "q4"@ {
        1
    } else {
        4
    }
}

/// Number of transformer layers assumed for a parameter count.
pub open spec fn layer_count_for(num_parameters: nat) -> nat {
    if num_parameters < 2_000_000_000 {
        24
    } else if num_parameters < 10_000_000_000 {
        32
    } else if num_parameters < 20_000_000_000 {
        40
    } else if num_parameters < 40_000_000_000 {
        64
    } else {
        80
    }
}

/// Weight bytes: parameters times bytes per parameter.
pub open spec fn base_memory_for(lower_id: Seq<char>, lower_dtype: Seq<char>) -> nat {
    param_count_for(lower_id) * half_bytes_per_param(lower_dtype) / 2
}

/// The sizes estimated for a model whose lowercased name and data type are given: its
/// parameter count and layer count, the data type as written, VRAM as the weight bytes plus
/// 20%, and RAM as a staging buffer of 30% of them.
pub open spec fn estimate_sizes_match(
    m: ModelMetadata,
    lower_id: Seq<char>,
    lower_dtype: Seq<char>,
    dtype: Seq<char>,
) -> bool {
    let n = param_count_for(lower_id);
    let base = base_memory_for(lower_id, lower_dtype);
    &&& m.num_parameters == n
    &&& m.model_dtype@ == dtype
    &&& m.estimated_vram_usage == base * 6 / 5
    &&& m.estimated_ram_usage == base * 3 / 10
    &&& m.layer_count == layer_count_for(n)
}

/// The estimate for a model whose lowercased name and data type are given: the sizes of
/// `estimate_sizes_match`, a context window of 8192 and the safetensors format.
pub open spec fn estimate_matches(
    m: ModelMetadata,
    lower_id: Seq<char>,
    lower_dtype: Seq<char>,
    dtype: Seq<char>,
) -> bool {
    &&& estimate_sizes_match(m, lower_id, lower_dtype, dtype)
    &&& m.context_window == 8192
    &&& m.format@ == "safetensors"@
}

/// Estimates memory needs of a model from its name and data type, given both already
/// lowercased, and the data type as the caller wrote it (kept in the result).
pub fn estimate_from_lowercase(lower_id: &str, lower_dtype: &str, dtype: &str) -> (m: ModelMetadata)
    requires
        usize::MAX == u64::MAX,
    ensures
        estimate_matches(m, lower_id@, lower_dtype@, dtype@),
{
    let num_parameters: u64 = if str_contains(lower_id, "8b") {
        8_000_000_000
    } else if str_contains(lower_id, "0.5b") {
        500_000_000
    } else if str_contains(lower_id, "1.5b") || str_contains(lower_id, "1b") {
        1_500_000_000
    } else if str_contains(lower_id, "3b") {
        3_000_000_000
    } else if str_contains(lower_id, "14b") {
        14_000_000_000
    } else if str_contains(lower_id, "32b") {
        32_000_000_000
    } else if str_contains(lower_id, "70b") || str_contains(lower_id, "72b") {
        70_000_000_000
    } else {
        7_000_000_000
    };
    let half_bytes: u64 = if str_eq(lower_dtype, "f32") || str_eq(lower_dtype, "float32") {
        8
    } else if str_eq(lower_dtype, "f16") || str_eq(lower_dtype, "float16") || str_eq(lower_dtype, "bf16")
        || str_eq(lower_dtype, "bfloat16") {
        4
    } else if str_eq(lower_dtype, "int8") || str_eq(lower_dtype, "q8") {
        2
    } else if str_eq(lower_dtype, "int4") || str_eq(lower_dtype, "q4") {
        1
    } else {
        4
    };
    assert(num_parameters * half_bytes <= 70_000_000_000 * 8) by (nonlinear_arith)
        requires num_parameters <= 70_000_000_000, half_bytes <= 8;
    let base: u64 = num_parameters * half_bytes / 2;
    let estimated_vram_usage: u64 = base * 6 / 5;
    let estimated_ram_usage: u64 = base * 3 / 10;
    let layer_count: usize = if num_parameters < 2_000_000_000 {
        24
    } else if num_parameters < 10_000_000_000 {
        32
    } else if num_parameters < 20_000_000_000 {
        40
    } else if num_parameters < 40_000_000_000 {
        64
    } else {
        80
    };
    ModelMetadata {
        num_parameters: num_parameters as usize,
        model_dtype: String::from_str(dtype),
        estimated_vram_usage: estimated_vram_usage as usize,
        estimated_ram_usage: estimated_ram_usage as usize,
        layer_count,
        context_window: 8192,
        format: String::from_str("safetensors"),
    }
}

/// Estimates memory needs of a model from its name and data type (both compared
/// case-insensitively, through `str::to_lowercase`).
pub fn estimate_model_metadata(model_id: &str, dtype: &str) -> (m: ModelMetadata)
    requires
        usize::MAX == u64::MAX,
    ensures
        estimate_matches(m, lowercase(model_id@), lowercase(dtype@), dtype@),
        is_ascii_text(model_id@) ==> lowercase(model_id@) == ascii_lowercase(model_id@),
{
    let lower_id = to_lowercase(model_id);
    let lower_dtype = to_lowercase(dtype);
    estimate_from_lowercase(lower_id.as_str(), lower_dtype.as_str(), dtype)
}

/// Law: an estimate always describes a safetensors model with a context window of 8192 and
/// the data type as it was written; its parameter count is one of the eight sizes a name can
/// give, its layer count follows from the parameter count, and the host memory it asks for is
/// no more than the device memory.
pub proof fn law_estimate_shape(m: ModelMetadata, lower_id: Seq<char>, lower_dtype: Seq<char>, dtype: Seq<char>)
    requires
        estimate_matches(m, lower_id, lower_dtype, dtype),
    ensures
        m.format@ == "safetensors"@,
        m.context_window == 8192,
        m.model_dtype@ == dtype,
        m.num_parameters == 500_000_000 || m.num_parameters == 1_500_000_000 || m.num_parameters == 3_000_000_000
            || m.num_parameters == 7_000_000_000 || m.num_parameters == 8_000_000_000 || m.num_parameters
            == 14_000_000_000 || m.num_parameters == 32_000_000_000 || m.num_parameters == 70_000_000_000,
        m.layer_count == layer_count_for(m.num_parameters as nat),
        m.estimated_ram_usage <= m.estimated_vram_usage,
{
    let base = base_memory_for(lower_id, lower_dtype);
    assert(base * 3 / 10 <= base * 6 / 5) by (nonlinear_arith)
        requires
            base >= 0,
    ;
}

/// Law: the sizes of an estimate depend on the lowercased model name alone, and a data type
/// that is none of the known ones counts as two bytes per parameter, as `f16` does: two
/// estimates whose names lowercase alike, one with such a data type and one with `f16`, differ
/// only in the data type they carry.
pub proof fn law_estimate_unknown_dtype_as_f16(
    m1: ModelMetadata,
    m2: ModelMetadata,
    id1: Seq<char>,
    id2: Seq<char>,
    dtype: Seq<char>,
    half: Seq<char>,
)
    requires
        estimate_matches(m1, lowercase(id1), lowercase(dtype), dtype),
        estimate_matches(m2, lowercase(id2), lowercase(half), half),
        lowercase(id1) == lowercase(id2),
        lowercase(half) == "f16"@,
        half_bytes_per_param(lowercase(dtype)) == 4,
    ensures
        m1.num_parameters == m2.num_parameters,
        m1.layer_count == m2.layer_count,
        m1.estimated_vram_usage == m2.estimated_vram_usage,
        m1.estimated_ram_usage == m2.estimated_ram_usage,
        m1.context_window == m2.context_window,
        m1.format@ == m2.format@,
{
    assert(half_bytes_per_param("f16"@) == 4) by {
        reveal_strlit("f16");
        reveal_strlit("f32");
        reveal_strlit("float32");
        assert("f16"@[1] != "f32"@[1]);
        assert("f16"@.len() != "float32"@.len());
    }
}

/// Law: the sizes of an estimate do not depend on the ASCII case of the model's name, and a
/// data type that is none of the known ones counts as two bytes per parameter, as `f16` does:
/// the estimate for an ASCII name in upper case with such a data type, and the one for the
/// name with `f16`, differ only in the data type they carry. The two `lowercase` premises are
/// what `estimate_model_metadata` ensures of an ASCII name.
pub proof fn law_estimate_ignores_ascii_case(
    m1: ModelMetadata,
    m2: ModelMetadata,
    id: Seq<char>,
    dtype: Seq<char>,
    half: Seq<char>,
)
    requires
        is_ascii_text(id),
        estimate_matches(m1, lowercase(ascii_uppercase(id)), lowercase(dtype), dtype),
        estimate_matches(m2, lowercase(id), lowercase(half), half),
        lowercase(id) == ascii_lowercase(id),
        is_ascii_text(ascii_uppercase(id)) ==> lowercase(ascii_uppercase(id)) == ascii_lowercase(ascii_uppercase(id)),
        lowercase(half) == "f16"@,
        half_bytes_per_param(lowercase(dtype)) == 4,
    ensures
        m1.num_parameters == m2.num_parameters,
        m1.layer_count == m2.layer_count,
        m1.estimated_vram_usage == m2.estimated_vram_usage,
        m1.estimated_ram_usage == m2.estimated_ram_usage,
        m1.context_window == m2.context_window,
        m1.format@ == m2.format@,
        m1.model_dtype@ == dtype,
{
    let up = ascii_uppercase(id);
    assert(is_ascii_text(up)) by {
        assert forall|i: int| 0 <= i < up.len() implies (#[trigger] up[i] as u32) < 128 by {
            assert(up[i] == crate::text::ascii_upper_char(id[i]));
            assert((id[i] as u32) < 128);
        }
    }
    assert(ascii_lowercase(up) =~= ascii_lowercase(id)) by {
        assert forall|i: int| 0 <= i < id.len() implies #[trigger] ascii_lowercase(up)[i] == ascii_lowercase(id)[i] by {
            let c = id[i];
            assert(up[i] == crate::text::ascii_upper_char(c));
            if 97 <= (c as u32) <= 122 {
                assert(((((c as u32) - 32) as char) as u32) == (c as u32) - 32);
            }
        }
    }
    law_estimate_unknown_dtype_as_f16(m1, m2, up, id, dtype, half);
}

proof fn lemma_dtype_names_distinct()
    ensures
        "f16"@ != "f32"@,
        "f16"@ != "float32"@,
        "float16"@ != "f32"@,
        "float16"@ != "float32"@,
        "bf16"@ != "f32"@,
        "bf16"@ != "float32"@,
        "bfloat16"@ != "f32"@,
        "bfloat16"@ != "float32"@,
        "int8"@ != "f32"@,
        "int8"@ != "float32"@,
        "int8"@ != "f16"@,
        "int8"@ != "float16"@,
        "int8"@ != "bf16"@,
        "int8"@ != "bfloat16"@,
        "q8"@ != "f32"@,
        "q8"@ != "float32"@,
        "q8"@ != "f16"@,
        "q8"@ != "float16"@,
        "q8"@ != "bf16"@,
        "q8"@ != "bfloat16"@,
        "int4"@ != "f32"@,
        "int4"@ != "float32"@,
        "int4"@ != "f16"@,
        "int4"@ != "float16"@,
        "int4"@ != "bf16"@,
        "int4"@ != "bfloat16"@,
        "int4"@ != "int8"@,
        "int4"@ != "q8"@,
        "q4"@ != "f32"@,
        "q4"@ != "float32"@,
        "q4"@ != "f16"@,
        "q4"@ != "float16"@,
        "q4"@ != "bf16"@,
        "q4"@ != "bfloat16"@,
        "q4"@ != "int8"@,
        "q4"@ != "q8"@,
{
    reveal_strlit("f32");
    reveal_strlit("float32");
    reveal_strlit("f16");
    reveal_strlit("float16");
    reveal_strlit("bf16");
    reveal_strlit("bfloat16");
    reveal_strlit("int8");
    reveal_strlit("q8");
    reveal_strlit("int4");
    reveal_strlit("q4");
    assert("f16"@[1] != "f32"@[1]);
    assert("f16"@.len() != "float32"@.len());
    assert("float16"@.len() != "f32"@.len());
    assert("float16"@[5] != "float32"@[5]);
    assert("bf16"@.len() != "f32"@.len());
    assert("bf16"@.len() != "float32"@.len());
    assert("bfloat16"@.len() != "f32"@.len());
    assert("bfloat16"@.len() != "float32"@.len());
    assert("int8"@.len() != "f32"@.len());
    assert("int8"@.len() != "float32"@.len());
    assert("int8"@.len() != "f16"@.len());
    assert("int8"@.len() != "float16"@.len());
    assert("int8"@[0] != "bf16"@[0]);
    assert("int8"@.len() != "bfloat16"@.len());
    assert("q8"@.len() != "f32"@.len());
    assert("q8"@.len() != "float32"@.len());
    assert("q8"@.len() != "f16"@.len());
    assert("q8"@.len() != "float16"@.len());
    assert("q8"@.len() != "bf16"@.len());
    assert("q8"@.len() != "bfloat16"@.len());
    assert("int4"@.len() != "f32"@.len());
    assert("int4"@.len() != "float32"@.len());
    assert("int4"@.len() != "f16"@.len());
    assert("int4"@.len() != "float16"@.len());
    assert("int4"@[0] != "bf16"@[0]);
    assert("int4"@.len() != "bfloat16"@.len());
    assert("int4"@[3] != "int8"@[3]);
    assert("int4"@.len() != "q8"@.len());
    assert("q4"@.len() != "f32"@.len());
    assert("q4"@.len() != "float32"@.len());
    assert("q4"@.len() != "f16"@.len());
    assert("q4"@.len() != "float16"@.len());
    assert("q4"@.len() != "bf16"@.len());
    assert("q4"@.len() != "bfloat16"@.len());
    assert("q4"@.len() != "int8"@.len());
    assert("q4"@[1] != "q8"@[1]);
}

/// Law: the estimate reads the parameter count from the first size tag the lowercased name
/// holds, in the order 8b, 0.5b, 1.5b or 1b, 3b, 14b, 32b, 70b or 72b, and takes 7 billion when
/// it holds none; the layer count is 24 below 2 billion parameters, 32 below 10 billion, 40
/// below 20 billion, 64 below 40 billion and 80 from there on; the weights take 4 bytes per
/// parameter for f32, 2 for the 16-bit floats and for a type it does not know, 1 for the 8-bit
/// types and half a byte for the 4-bit ones; the VRAM estimate is the weights plus a fifth and
/// the RAM estimate three tenths of them.
pub proof fn law_estimate_by_name_and_dtype(m: ModelMetadata, l: Seq<char>, ld: Seq<char>, dtype: Seq<char>)
    requires
        estimate_matches(m, l, ld, dtype),
    ensures
        seq_contains(l, "8b"@) ==> m.num_parameters == 8_000_000_000,
        !seq_contains(l, "8b"@) && seq_contains(l, "0.5b"@) ==> m.num_parameters == 500_000_000,
        !seq_contains(l, "8b"@) && !seq_contains(l, "0.5b"@) && (seq_contains(l, "1.5b"@) || seq_contains(l, "1b"@))
            ==> m.num_parameters == 1_500_000_000,
        !seq_contains(l, "8b"@) && !seq_contains(l, "0.5b"@) && !seq_contains(l, "1.5b"@) && !seq_contains(l, "1b"@)
            && seq_contains(l, "3b"@) ==> m.num_parameters == 3_000_000_000,
        !seq_contains(l, "8b"@) && !seq_contains(l, "0.5b"@) && !seq_contains(l, "1.5b"@) && !seq_contains(l, "1b"@)
            && !seq_contains(l, "3b"@) && seq_contains(l, "14b"@) ==> m.num_parameters == 14_000_000_000,
        !seq_contains(l, "8b"@) && !seq_contains(l, "0.5b"@) && !seq_contains(l, "1.5b"@) && !seq_contains(l, "1b"@)
            && !seq_contains(l, "3b"@) && !seq_contains(l, "14b"@) && seq_contains(l, "32b"@) ==> m.num_parameters
            == 32_000_000_000,
        !seq_contains(l, "8b"@) && !seq_contains(l, "0.5b"@) && !seq_contains(l, "1.5b"@) && !seq_contains(l, "1b"@)
            && !seq_contains(l, "3b"@) && !seq_contains(l, "14b"@) && !seq_contains(l, "32b"@) && (seq_contains(
            l,
            "70b"@,
        ) || seq_contains(l, "72b"@)) ==> m.num_parameters == 70_000_000_000,
        !seq_contains(l, "8b"@) && !seq_contains(l, "0.5b"@) && !seq_contains(l, "1.5b"@) && !seq_contains(l, "1b"@)
            && !seq_contains(l, "3b"@) && !seq_contains(l, "14b"@) && !seq_contains(l, "32b"@) && !seq_contains(
            l,
            "70b"@,
        ) && !seq_contains(l, "72b"@) ==> m.num_parameters == 7_000_000_000,
        m.num_parameters < 2_000_000_000 ==> m.layer_count == 24,
        2_000_000_000 <= m.num_parameters < 10_000_000_000 ==> m.layer_count == 32,
        10_000_000_000 <= m.num_parameters < 20_000_000_000 ==> m.layer_count == 40,
        20_000_000_000 <= m.num_parameters < 40_000_000_000 ==> m.layer_count == 64,
        40_000_000_000 <= m.num_parameters ==> m.layer_count == 80,
        ld == "f32"@ || ld == "float32"@ ==> m.estimated_vram_usage == (m.num_parameters * 4) * 6 / 5
            && m.estimated_ram_usage == (m.num_parameters * 4) * 3 / 10,
        ld == "f16"@ || ld == "float16"@ || ld == "bf16"@ || ld == "bfloat16"@ ==> m.estimated_vram_usage == (
        m.num_parameters * 2) * 6 / 5 && m.estimated_ram_usage == (m.num_parameters * 2) * 3 / 10,
        ld == "int8"@ || ld == "q8"@ ==> m.estimated_vram_usage == m.num_parameters * 6 / 5 && m.estimated_ram_usage
            == m.num_parameters * 3 / 10,
        ld == "int4"@ || ld == "q4"@ ==> m.estimated_vram_usage == (m.num_parameters / 2) * 6 / 5
            && m.estimated_ram_usage == (m.num_parameters / 2) * 3 / 10,
        ld != "f32"@ && ld != "float32"@ && ld != "f16"@ && ld != "float16"@ && ld != "bf16"@ && ld != "bfloat16"@
            && ld != "int8"@ && ld != "q8"@ && ld != "int4"@ && ld != "q4"@ ==> m.estimated_vram_usage == (
        m.num_parameters * 2) * 6 / 5 && m.estimated_ram_usage == (m.num_parameters * 2) * 3 / 10,
{
    lemma_dtype_names_distinct();
    let p = m.num_parameters as nat;
    assert(p * 8 / 2 == p * 4) by (nonlinear_arith);
    assert(p * 4 / 2 == p * 2) by (nonlinear_arith);
    assert(p * 2 / 2 == p) by (nonlinear_arith);
    assert(p * 1 / 2 == p / 2) by (nonlinear_arith);
}

} // verus!
