use std::path::PathBuf;

use candle_core::quantized::gguf_file::Value;

use zenllm::registry::{
    apply_gguf_header, header_fields_from, metadata_from_file_name, GgufValue, ModelMetadata, Registry, RegistryConfig,
    SourceType,
};

fn record(id: &str) -> ModelMetadata {
    ModelMetadata {
        model_id: id.to_string(),
        source_type: SourceType::Hf,
        source_ref: format!("hf/{}", id),
        local_path: PathBuf::from(format!("/models/{}", id)),
        format: "gguf".to_string(),
        architecture: None,
        parameter_count: None,
        quantization: None,
        gguf_tensor_type: None,
        context_length: None,
        recommended_mode: None,
        tags: vec![],
    }
}

fn registry() -> Registry {
    Registry::from_parts(PathBuf::from("/tmp/registry.json"), RegistryConfig::new())
}

#[test]
fn get_after_add_returns_the_record() {
    let mut r = registry();
    r.add(record("b"));
    r.add(record("a"));
    assert_eq!(r.get("a").unwrap().source_ref, "hf/a");
    assert_eq!(r.get("b").unwrap().source_ref, "hf/b");
    assert!(r.get("c").is_none());
    assert_eq!(r.config.len(), 2);
}

#[test]
fn add_replaces_a_record_with_the_same_id() {
    let mut r = registry();
    r.add(record("m"));
    let mut newer = record("m");
    newer.format = "safetensors".to_string();
    r.add(newer);
    assert_eq!(r.config.len(), 1);
    assert_eq!(r.get("m").unwrap().format, "safetensors");
}

#[test]
fn remove_reports_whether_the_id_was_there() {
    let mut r = registry();
    r.add(record("x"));
    r.add(record("y"));
    assert!(r.remove("x"));
    assert!(!r.remove("x"));
    assert!(r.get("x").is_none());
    assert_eq!(r.get("y").unwrap().model_id, "y");
}

#[test]
fn add_then_remove_restores_the_contents() {
    let mut r = registry();
    r.add(record("keep"));
    r.add(record("tmp"));
    r.remove("tmp");
    let ids: Vec<&str> = r.list().iter().map(|m| m.model_id.as_str()).collect();
    assert_eq!(ids, vec!["keep"]);
}

#[test]
fn list_is_sorted_by_id() {
    let mut r = registry();
    for id in ["qwen", "llama", "mistral", "Zephyr", "gemma"] {
        r.add(record(id));
    }
    let ids: Vec<&str> = r.list().iter().map(|m| m.model_id.as_str()).collect();
    assert_eq!(ids, vec!["Zephyr", "gemma", "llama", "mistral", "qwen"]);
}

#[test]
fn from_entries_keeps_the_last_record_of_a_key() {
    let mut second = record("a");
    second.format = "safetensors".to_string();
    let c = RegistryConfig::from_entries(vec![
        ("a".to_string(), record("a")),
        ("b".to_string(), record("b")),
        ("a".to_string(), second),
    ]);
    assert_eq!(c.len(), 2);
    let r = Registry::from_parts(PathBuf::from("/tmp/r.json"), c);
    assert_eq!(r.get("a").unwrap().format, "safetensors");
}

#[test]
fn file_name_gives_id_quantization_and_format() {
    let m = metadata_from_file_name(
        "Qwen2.5-0.5B-Instruct-Q4_K_M".to_string(),
        PathBuf::from("/m/Qwen2.5-0.5B-Instruct-Q4_K_M.gguf"),
        Some("gguf".to_string()),
        false,
    );
    assert_eq!(m.model_id, "Qwen2.5-0.5B-Instruct-Q4_K_M");
    assert_eq!(m.source_type, SourceType::Local);
    assert_eq!(m.source_ref, "local");
    assert_eq!(m.format, "gguf");
    assert_eq!(m.quantization.as_deref(), Some("q4_k_m"));
    assert_eq!(m.recommended_mode.as_deref(), Some("auto"));

    let d = metadata_from_file_name("weights.v2".to_string(), PathBuf::from("/m/weights.v2"), Some("v2".to_string()), true);
    assert_eq!(d.format, "safetensors");
    assert_eq!(d.quantization, None);
    let u = metadata_from_file_name("notes".to_string(), PathBuf::from("/m/notes"), None, false);
    assert_eq!(u.format, "unknown");
    let q = metadata_from_file_name("model-q2_k-q8_0".to_string(), PathBuf::from("/m/x"), Some("bin".to_string()), false);
    assert_eq!(q.quantization.as_deref(), Some("q2_k"));
    assert_eq!(q.format, "unknown");
}

#[test]
fn gguf_header_fills_architecture_context_and_type() {
    let mut m = record("x");
    apply_gguf_header(&mut m, Some("llama".to_string()), Some(4096), Some(2));
    assert_eq!(m.architecture.as_deref(), Some("llama"));
    assert_eq!(m.context_length, Some(4096));
    assert_eq!(m.gguf_tensor_type.as_deref(), Some("type_2"));
    assert_eq!(m.quantization.as_deref(), Some("q4_0"));

    let mut n = record("y");
    n.quantization = Some("q5_k_m".to_string());
    apply_gguf_header(&mut n, None, Some(4096), Some(99));
    assert_eq!(n.architecture, None);
    assert_eq!(n.context_length, None);
    assert_eq!(n.gguf_tensor_type.as_deref(), Some("type_99"));
    assert_eq!(n.quantization.as_deref(), Some("q5_k_m"));

    let mut o = record("z");
    apply_gguf_header(&mut o, None, None, Some(7));
    assert_eq!(o.quantization.as_deref(), Some("type_7"));
}

fn gguf_bytes(entries: &[(&str, Value)]) -> Vec<u8> {
    let md: Vec<(&str, &Value)> = entries.iter().map(|(k, v)| (*k, v)).collect();
    let mut cursor = std::io::Cursor::new(Vec::new());
    candle_core::quantized::gguf_file::write(&mut cursor, &md, &[]).unwrap();
    cursor.into_inner()
}

#[test]
fn gguf_header_is_read_from_bytes() {
    let bytes = gguf_bytes(&[
        ("general.architecture", Value::String("qwen2".to_string())),
        ("qwen2.context_length", Value::U64(32768)),
        ("general.file_type", Value::U32(12)),
        ("general.name", Value::String("tiny".to_string())),
    ]);
    let (arch, ctx, ft) = zenllm::registry::gguf_header_fields(&bytes).unwrap();
    assert_eq!(arch.as_deref(), Some("qwen2"));
    assert_eq!(ctx, Some(32768));
    assert_eq!(ft, Some(12));
    assert!(zenllm::registry::gguf_header_fields(b"not a gguf file").is_none());
}

#[test]
fn detect_metadata_adds_the_gguf_header() {
    let bytes = gguf_bytes(&[
        ("general.architecture", Value::String("llama".to_string())),
        ("llama.context_length", Value::U32(4096)),
        ("general.file_type", Value::U32(15)),
    ]);
    let m = zenllm::registry::detect_metadata(
        "tiny-llama".to_string(),
        PathBuf::from("/m/tiny-llama.gguf"),
        Some("gguf".to_string()),
        false,
        Some(&bytes),
    );
    assert_eq!(m.format, "gguf");
    assert_eq!(m.architecture.as_deref(), Some("llama"));
    assert_eq!(m.context_length, Some(4096));
    assert_eq!(m.gguf_tensor_type.as_deref(), Some("type_15"));
    assert_eq!(m.quantization.as_deref(), Some("q8_k"));

    let no_arch = gguf_bytes(&[("llama.context_length", Value::U32(4096)), ("general.file_type", Value::U64(2))]);
    let n = zenllm::registry::detect_metadata(
        "other-q4_0".to_string(),
        PathBuf::from("/m/other-q4_0.gguf"),
        Some("gguf".to_string()),
        false,
        Some(&no_arch),
    );
    assert_eq!(n.architecture, None);
    assert_eq!(n.context_length, None);
    assert_eq!(n.gguf_tensor_type, None);
    assert_eq!(n.quantization.as_deref(), Some("q4_0"));

    let s = zenllm::registry::detect_metadata(
        "w".to_string(),
        PathBuf::from("/m/w.safetensors"),
        Some("safetensors".to_string()),
        false,
        Some(&bytes),
    );
    assert_eq!(s.format, "safetensors");
    assert_eq!(s.architecture, None);
}

#[test]
fn header_fields_from_given_entries() {
    let entries = vec![
        ("general.file_type".to_string(), GgufValue::U64(3)),
        ("general.architecture".to_string(), GgufValue::Text("phi2".to_string())),
        ("phi2.context_length".to_string(), GgufValue::U32(2048)),
    ];
    let (arch, ctx, ft) = header_fields_from(&entries);
    assert_eq!(arch.as_deref(), Some("phi2"));
    assert_eq!(ctx, Some(2048));
    assert_eq!(ft, None);
    let (a2, c2, f2) = header_fields_from(&vec![("general.architecture".to_string(), GgufValue::U32(1))]);
    assert_eq!((a2, c2, f2), (None, None, None));
}

#[test]
fn gguf_with_zero_alignment_is_not_read() {
    let zero = gguf_bytes(&[
        ("general.architecture", Value::String("llama".to_string())),
        ("general.alignment", Value::U32(0)),
    ]);
    assert!(zenllm::gguf_layout::declares_zero_alignment(&zero));
    assert!(zenllm::registry::gguf_header_fields(&zero).is_none());
    let zero8 = gguf_bytes(&[("general.alignment", Value::U8(0)), ("general.file_type", Value::U32(2))]);
    assert!(zenllm::registry::gguf_header_fields(&zero8).is_none());
    let ok = gguf_bytes(&[
        ("general.architecture", Value::String("llama".to_string())),
        ("general.alignment", Value::U32(32)),
    ]);
    assert!(!zenllm::gguf_layout::declares_zero_alignment(&ok));
    let (arch, _, _) = zenllm::registry::gguf_header_fields(&ok).unwrap();
    assert_eq!(arch.as_deref(), Some("llama"));
    let negative = gguf_bytes(&[("general.alignment", Value::I32(-1)), ("general.file_type", Value::U32(2))]);
    assert!(!zenllm::gguf_layout::declares_zero_alignment(&negative));
    assert_eq!(zenllm::registry::gguf_header_fields(&negative).unwrap().2, Some(2));
    let last_wins = gguf_bytes(&[("general.alignment", Value::U32(0)), ("general.alignment", Value::U32(64))]);
    assert!(!zenllm::gguf_layout::declares_zero_alignment(&last_wins));
    let wide = gguf_bytes(&[("general.alignment", Value::U64(0))]);
    assert!(!zenllm::gguf_layout::declares_zero_alignment(&wide));
}

#[test]
fn alignment_key_inside_other_values_is_not_the_alignment() {
    let tricky = gguf_bytes(&[
        ("tokenizer.tokens", Value::Array(vec![Value::String("general.alignment".to_string()), Value::String("abcde".to_string())])),
        ("note", Value::String("general.alignment".to_string())),
        ("x", Value::U8(0)),
        ("general.file_type", Value::U32(7)),
    ]);
    assert!(!zenllm::gguf_layout::declares_zero_alignment(&tricky));
    assert_eq!(zenllm::registry::gguf_header_fields(&tricky).unwrap().2, Some(7));
    let m = zenllm::registry::detect_metadata(
        "model".to_string(),
        PathBuf::from("/m/model.gguf"),
        Some("gguf".to_string()),
        false,
        Some(&tricky),
    );
    assert_eq!(m.gguf_tensor_type.as_deref(), Some("type_7"));
    let nested = gguf_bytes(&[("general.alignment", Value::Array(vec![Value::U32(0)]))]);
    assert!(!zenllm::gguf_layout::declares_zero_alignment(&nested));
}
