//! The local model registry: model records keyed by id, and what a model file's name and
//! header tell about it.
use vstd::prelude::*;
use std::path::PathBuf;
use crate::gguf_layout::{declares_zero_alignment, gguf_zero_alignment};
use crate::text::{decimal, lex_le, lemma_lex_total, lemma_lex_trans, lowercase, seq_contains, str_contains, str_eq,
    str_lex_le, to_lowercase, usize_to_decimal};

verus! {

/// `std::path::PathBuf`, carried through unopened.
#[verifier::external_type_specification]
#[verifier::external_body]
pub struct ExPathBuf(PathBuf);

/// `PathBuf::clone`: nothing is claimed of the copy it returns.
pub assume_specification[ <PathBuf as Clone>::clone ](p: &PathBuf) -> PathBuf;

/// Where a registered model came from.
#[derive(Debug, Clone, PartialEq, Eq, Structural)]
pub enum SourceType {
    Hf,
    Ollama,
    Url,
    Local,
}

/// What the registry records of a model.
#[derive(Debug, Clone)]
pub struct ModelMetadata {
    pub model_id: String,
    pub source_type: SourceType,
    pub source_ref: String,
    pub local_path: PathBuf,
    pub format: String,
    pub architecture: Option<String>,
    pub parameter_count: Option<String>,
    pub quantization: Option<String>,
    pub gguf_tensor_type: Option<String>,
    pub context_length: Option<usize>,
    pub recommended_mode: Option<String>,
    pub tags: Vec<String>,
}

/// The registry's contents: model records keyed by id, each key at most once.
pub struct RegistryConfig {
    models: Vec<(String, ModelMetadata)>,
}

/// The map that a list of (key, record) pairs describes, later pairs overriding earlier ones.
pub open spec fn entries_map(s: Seq<(String, ModelMetadata)>) -> Map<Seq<char>, ModelMetadata>
    decreases s.len(),
{
    if s.len() == 0 {
        Map::empty()
    } else {
        entries_map(s.drop_last()).insert(s.last().0@, s.last().1)
    }
}

/// No key occurs twice.
pub open spec fn keys_distinct(s: Seq<(String, ModelMetadata)>) -> bool {
    forall|i: int, j: int| 0 <= i < j < s.len() ==> (#[trigger] s[i]).0@ != (#[trigger] s[j]).0@
}

/// Lemma: with distinct keys, the map holds exactly the pairs of the list.
proof fn lemma_entries_map(s: Seq<(String, ModelMetadata)>)
    requires
        keys_distinct(s),
    ensures
        forall|k: Seq<char>| #[trigger] entries_map(s).contains_key(k) <==> exists|i: int| 0 <= i < s.len() && s[i].0@ == k,
        forall|i: int| 0 <= i < s.len() ==> #[trigger] entries_map(s).contains_key(s[i].0@) && entries_map(s)[s[i].0@] == s[i].1,
        entries_map(s).dom().finite(),
        entries_map(s).dom().len() == s.len(),
    decreases s.len(),
{
    if s.len() > 0 {
        let init = s.drop_last();
        assert(keys_distinct(init)) by {
            assert forall|i: int, j: int| 0 <= i < j < init.len() implies (#[trigger] init[i]).0@ != (#[trigger] init[j]).0@ by {
                assert(init[i] == s[i] && init[j] == s[j]);
            }
        }
        lemma_entries_map(init);
        let last = s.last();
        assert(entries_map(s) == entries_map(init).insert(last.0@, last.1));
        assert(!entries_map(init).contains_key(last.0@)) by {
            if entries_map(init).contains_key(last.0@) {
                let i = choose|i: int| 0 <= i < init.len() && init[i].0@ == last.0@;
                assert(s[i] == init[i]);
                assert(s[s.len() - 1] == last);
            }
        }
        assert forall|k: Seq<char>| #[trigger] entries_map(s).contains_key(k) <==> exists|i: int| 0 <= i < s.len() && s[i].0@ == k by {
            if k == last.0@ {
                assert(s[s.len() - 1].0@ == k);
            } else if entries_map(init).contains_key(k) {
                let i = choose|i: int| 0 <= i < init.len() && init[i].0@ == k;
                assert(s[i] == init[i]);
            } else {
                if exists|i: int| 0 <= i < s.len() && s[i].0@ == k {
                    let i = choose|i: int| 0 <= i < s.len() && s[i].0@ == k;
                    assert(i < init.len());
                    assert(init[i] == s[i]);
                }
            }
        }
        assert forall|i: int| 0 <= i < s.len() implies #[trigger] entries_map(s).contains_key(s[i].0@)
            && entries_map(s)[s[i].0@] == s[i].1 by {
            if i < init.len() {
                assert(init[i] == s[i]);
                assert(s[i].0@ != s[s.len() - 1].0@);
                assert(entries_map(init).contains_key(init[i].0@));
            } else {
                assert(s[i] == last);
            }
        }
    }
}

/// Lemma: a key's position in a list with distinct keys.
proof fn lemma_key_position(s: Seq<(String, ModelMetadata)>, i: int, k: Seq<char>)
    requires
        keys_distinct(s),
        0 <= i < s.len(),
        s[i].0@ == k,
    ensures
        forall|j: int| 0 <= j < s.len() && j != i ==> (#[trigger] s[j]).0@ != k,
{
    assert forall|j: int| 0 <= j < s.len() && j != i implies (#[trigger] s[j]).0@ != k by {
        if j < i {
            assert(s[j].0@ != s[i].0@);
        } else {
            assert(s[i].0@ != s[j].0@);
        }
    }
}

impl RegistryConfig {
    #[verifier::type_invariant]
    spec fn keys_unique(self) -> bool {
        keys_distinct(self.models@)
    }

    /// The (key, record) pairs, in storage order.
    pub closed spec fn entries(&self) -> Seq<(String, ModelMetadata)> {
        self.models@
    }

    /// The records in storage order.
    pub closed spec fn records(&self) -> Seq<ModelMetadata> {
        self.models@.map_values(|e: (String, ModelMetadata)| e.1)
    }
}

impl View for RegistryConfig {
    type V = Map<Seq<char>, ModelMetadata>;

    closed spec fn view(&self) -> Map<Seq<char>, ModelMetadata> {
        entries_map(self.models@)
    }
}

/// Index of the pair whose key is `key`.
fn find_key(models: &Vec<(String, ModelMetadata)>, key: &str) -> (r: Option<usize>)
    ensures
        match r {
            Some(i) => i < models@.len() && models@[i as int].0@ == key@,
            None => forall|j: int| 0 <= j < models@.len() ==> (#[trigger] models@[j]).0@ != key@,
        },
{
    let mut i: usize = 0;
    while i < models.len()
        invariant
            i <= models@.len(),
            forall|j: int| 0 <= j < i ==> (#[trigger] models@[j]).0@ != key@,
        decreases models@.len() - i,
    {
        if str_eq(models[i].0.as_str(), key) {
            return Some(i);
        }
        i = i + 1;
    }
    None
}

impl RegistryConfig {
    /// An empty registry.
    pub fn new() -> (c: Self)
        ensures
            c@ == Map::<Seq<char>, ModelMetadata>::empty(),
            c.entries() == Seq::<(String, ModelMetadata)>::empty(),
    {
        let c = RegistryConfig { models: Vec::new() };
        assert(c@ =~= Map::<Seq<char>, ModelMetadata>::empty());
        c
    }

    /// A registry of the given pairs; a key given twice keeps its last record (as collecting
    /// the pairs into a map does).
    pub fn from_entries(pairs: Vec<(String, ModelMetadata)>) -> (c: Self)
        ensures
            c@ == entries_map(pairs@),
    {
        let mut c = RegistryConfig::new();
        let mut rest = pairs;
        let ghost all = rest@;
        let mut taken: Vec<(String, ModelMetadata)> = Vec::new();
        while rest.len() > 0
            invariant
                rest@ == all.take(rest@.len() as int),
                rest@.len() <= all.len(),
                taken@.len() + rest@.len() == all.len(),
                forall|j: int| 0 <= j < taken@.len() ==> taken@[j] == all[all.len() - 1 - j],
            decreases rest@.len(),
        {
            let ghost r0 = rest@;
            let p = rest.pop().unwrap();
            assert(rest@ =~= all.take(rest@.len() as int));
            taken.push(p);
        }
        while taken.len() > 0
            invariant
                c@ == entries_map(all.take(all.len() - taken@.len())),
                taken@.len() <= all.len(),
                forall|j: int| 0 <= j < taken@.len() ==> taken@[j] == all[all.len() - 1 - j],
            decreases taken@.len(),
        {
            let ghost before = c@;
            let ghost pos = all.len() - taken@.len();
            let ghost t0 = taken@;
            let (k, m) = taken.pop().unwrap();
            assert((k, m) == t0[t0.len() - 1]);
            assert((k, m) == all[pos]);
            assert(all.take(pos + 1).drop_last() =~= all.take(pos));
            assert(all.take(pos + 1).last() == (k, m));
            c.insert(k, m);
        }
        assert(all.take(all.len() as int) =~= all);
        c
    }

    /// Sets the record under `key`, replacing any earlier one.
    fn insert(&mut self, key: String, m: ModelMetadata)
        ensures
            final(self)@ == old(self)@.insert(key@, m),
    {
        proof {
            use_type_invariant(&*self);
            lemma_entries_map(self.models@);
        }
        let mut models: Vec<(String, ModelMetadata)> = Vec::new();
        std::mem::swap(&mut models, &mut self.models);
        let ghost old_models = models@;
        match find_key(&models, key.as_str()) {
            Some(i) => {
                let ghost k = key@;
                models.set(i, (key, m));
                proof {
                    lemma_key_position(old_models, i as int, k);
                    assert(keys_distinct(models@)) by {
                        assert forall|a: int, b: int| 0 <= a < b < models@.len() implies (#[trigger] models@[a]).0@
                            != (#[trigger] models@[b]).0@ by {
                            if a != i && b != i {
                                assert(old_models[a].0@ != old_models[b].0@);
                            }
                        }
                    }
                    lemma_entries_map(models@);
                    let nm = entries_map(models@);
                    let om = entries_map(old_models).insert(k, m);
                    assert forall|kk: Seq<char>| #[trigger] nm.contains_key(kk) <==> om.contains_key(kk) by {
                        if nm.contains_key(kk) {
                            let j = choose|j: int| 0 <= j < models@.len() && models@[j].0@ == kk;
                            if j != i {
                                assert(models@[j] == old_models[j]);
                            }
                        }
                        if entries_map(old_models).contains_key(kk) {
                            let j = choose|j: int| 0 <= j < old_models.len() && old_models[j].0@ == kk;
                            if j != i {
                                assert(models@[j] == old_models[j]);
                            } else {
                                assert(models@[i as int].0@ == k);
                            }
                        }
                        if kk == k {
                            assert(models@[i as int].0@ == k);
                        }
                    }
                    assert forall|kk: Seq<char>| #[trigger] nm.contains_key(kk) implies nm[kk] == om[kk] by {
                        let j = choose|j: int| 0 <= j < models@.len() && models@[j].0@ == kk;
                        if j != i {
                            assert(models@[j] == old_models[j]);
                        }
                    }
                    assert(nm =~= om);
                }
                self.models = models;
            },
            None => {
                let ghost k = key@;
                models.push((key, m));
                proof {
                    assert(models@.drop_last() =~= old_models);
                    assert(keys_distinct(models@)) by {
                        assert forall|a: int, b: int| 0 <= a < b < models@.len() implies (#[trigger] models@[a]).0@
                            != (#[trigger] models@[b]).0@ by {
                            if b < old_models.len() {
                                assert(old_models[a].0@ != old_models[b].0@);
                            } else {
                                assert(models@[a] == old_models[a]);
                            }
                        }
                    }
                }
                self.models = models;
            },
        }
    }

    /// Takes out the record under `key`; says whether there was one.
    fn remove_key(&mut self, key: &str) -> (r: bool)
        ensures
            r == old(self)@.contains_key(key@),
            final(self)@ == old(self)@.remove(key@),
    {
        proof {
            use_type_invariant(&*self);
            lemma_entries_map(self.models@);
        }
        match find_key(&self.models, key) {
            Some(i) => {
                let mut models: Vec<(String, ModelMetadata)> = Vec::new();
        std::mem::swap(&mut models, &mut self.models);
                let ghost old_models = models@;
                models.remove(i);
                proof {
                    lemma_key_position(old_models, i as int, key@);
                    assert(keys_distinct(models@)) by {
                        assert forall|a: int, b: int| 0 <= a < b < models@.len() implies (#[trigger] models@[a]).0@
                            != (#[trigger] models@[b]).0@ by {
                            let oa = if a < i { a } else { a + 1 };
                            let ob = if b < i { b } else { b + 1 };
                            assert(models@[a] == old_models[oa]);
                            assert(models@[b] == old_models[ob]);
                        }
                    }
                    lemma_entries_map(models@);
                    assert forall|k: Seq<char>| #[trigger] entries_map(models@).contains_key(k) <==> entries_map(
                        old_models).remove(key@).contains_key(k) by {
                        if entries_map(models@).contains_key(k) {
                            let j = choose|j: int| 0 <= j < models@.len() && models@[j].0@ == k;
                            let oj = if j < i { j } else { j + 1 };
                            assert(models@[j] == old_models[oj]);
                        }
                        if entries_map(old_models).remove(key@).contains_key(k) {
                            let j = choose|j: int| 0 <= j < old_models.len() && old_models[j].0@ == k;
                            assert(j != i);
                            let nj = if j < i { j } else { j - 1 };
                            assert(models@[nj] == old_models[j]);
                        }
                    }
                    assert forall|k: Seq<char>| #[trigger] entries_map(models@).contains_key(k) implies entries_map(
                        models@)[k] == entries_map(old_models)[k] by {
                        let j = choose|j: int| 0 <= j < models@.len() && models@[j].0@ == k;
                        let oj = if j < i { j } else { j + 1 };
                        assert(models@[j] == old_models[oj]);
                    }
                    assert(entries_map(models@) =~= entries_map(old_models).remove(key@));
                }
                self.models = models;
                true
            },
            None => {
                proof {
                    assert(entries_map(self.models@).remove(key@) =~= entries_map(self.models@));
                }
                false
            },
        }
    }

    /// The record under `key`.
    fn get_key(&self, key: &str) -> (r: Option<&ModelMetadata>)
        ensures
            match r {
                Some(m) => self@.contains_key(key@) && *m == self@[key@],
                None => !self@.contains_key(key@),
            },
    {
        proof {
            use_type_invariant(self);
            lemma_entries_map(self.models@);
        }
        match find_key(&self.models, key) {
            Some(i) => {
                proof {
                    assert(entries_map(self.models@).contains_key(self.models@[i as int].0@));
                }
                Some(&self.models[i].1)
            },
            None => None,
        }
    }

    /// Number of records.
    pub fn len(&self) -> (n: usize)
        ensures
            n == self@.len(),
    {
        proof {
            use_type_invariant(self);
            lemma_entries_map(self.models@);
        }
        self.models.len()
    }

    /// The (key, record) pairs, for writing the registry out.
    pub fn pairs(&self) -> (r: &Vec<(String, ModelMetadata)>)
        ensures
            r@ == self.entries(),
            entries_map(r@) == self@,
            keys_distinct(r@),
    {
        proof {
            use_type_invariant(self);
        }
        &self.models
    }
}

/// Quantization tags recognised in model file names, in the order they are tried.
pub open spec fn quant_tags() -> Seq<Seq<char>> {
    seq!["q2_k"@, "q3_k_s"@, "q3_k_m"@, "q3_k_l"@, "q4_0"@, "q4_1"@, "q4_k_s"@, "q4_k_m"@, "q5_0"@, "q5_1"@,
        "q5_k_s"@, "q5_k_m"@, "q6_k"@, "q8_0"@]
}

/// The first tag of `tags` that occurs in `name`.
pub open spec fn first_tag_in(name: Seq<char>, tags: Seq<Seq<char>>) -> Option<Seq<char>>
    decreases tags.len(),
{
    if tags.len() == 0 {
        None
    } else if seq_contains(name, tags[0]) {
        Some(tags[0])
    } else {
        first_tag_in(name, tags.drop_first())
    }
}

/// The format a model file has by its extension: `gguf` and `safetensors` files by name, a
/// directory (that has an extension) as safetensors, anything else unknown.
pub open spec fn format_for(extension: Option<Seq<char>>, is_dir: bool) -> Seq<char> {
    match extension {
        Some(e) => if e == "gguf"@ {
            "gguf"@
        } else if e == "safetensors"@ {
            "safetensors"@
        } else if is_dir {
            "safetensors"@
        } else {
            "unknown"@
        },
        None => "unknown"@,
    }
}

/// The quantization named by a GGUF file-type code, if it is one of the known ones.
pub open spec fn gguf_file_tensor_type(v: u32) -> Option<Seq<char>> {
    if v == 2 { Some("q4_0"@) }
    else if v == 3 { Some("q4_1"@) }
    else if v == 8 { Some("q8_0"@) }
    else if v == 9 { Some("q8_1"@) }
    else if v == 10 { Some("q2_k"@) }
    else if v == 11 { Some("q3_k"@) }
    else if v == 12 { Some("q4_k"@) }
    else if v == 13 { Some("q5_k"@) }
    else if v == 14 { Some("q6_k"@) }
    else if v == 15 { Some("q8_k"@) }
    else { None }
}

/// The record a model file's name gives, before its header is read.
pub open spec fn file_record_ok(
    m: ModelMetadata,
    stem: Seq<char>,
    lower_stem: Seq<char>,
    local_path: PathBuf,
    extension: Option<Seq<char>>,
    is_dir: bool,
) -> bool {
    &&& m.model_id@ == stem
    &&& m.source_type == SourceType::Local
    &&& m.source_ref@ == "local"@
    &&& m.local_path == local_path
    &&& m.format@ == format_for(extension, is_dir)
    &&& m.architecture is None
    &&& m.parameter_count is None
    &&& opt_view(m.quantization) == first_tag_in(lower_stem, quant_tags())
    &&& m.gguf_tensor_type is None
    &&& m.context_length is None
    &&& opt_view(m.recommended_mode) == Some("auto"@)
    &&& m.tags@.len() == 0
}

/// An optional string as an optional character sequence.
pub open spec fn opt_view(s: Option<String>) -> Option<Seq<char>> {
    match s {
        Some(x) => Some(x@),
        None => None,
    }
}

/// The first known quantization tag (see `quant_tags`) that occurs in a lowercased file
/// stem.
pub fn first_quant_tag(lower: &str) -> (r: Option<String>)
    ensures
        opt_view(r) == first_tag_in(lower@, quant_tags()),
{
    let tags: [&str; 14] = ["q2_k", "q3_k_s", "q3_k_m", "q3_k_l", "q4_0", "q4_1", "q4_k_s", "q4_k_m", "q5_0", "q5_1",
        "q5_k_s", "q5_k_m", "q6_k", "q8_0"];
    let ghost spec_tags = quant_tags();
    assert(forall|j: int| 0 <= j < 14 ==> tags@[j]@ == #[trigger] spec_tags[j]);
    let mut i: usize = 0;
    assert(spec_tags.skip(0) =~= spec_tags);
    while i < 14
        invariant
            i <= 14,
            spec_tags == quant_tags(),
            forall|j: int| 0 <= j < 14 ==> tags@[j]@ == #[trigger] spec_tags[j],
            first_tag_in(lower@, spec_tags) == first_tag_in(lower@, spec_tags.skip(i as int)),
        decreases 14 - i,
    {
        let t = tags[i];
        proof {
            let rest = spec_tags.skip(i as int);
            assert(rest[0] == spec_tags[i as int]);
            assert(rest.drop_first() =~= spec_tags.skip(i + 1));
        }
        if str_contains(lower, t) {
            return Some(String::from_str(t));
        }
        i = i + 1;
    }
    proof {
        assert(spec_tags.skip(14) =~= Seq::<Seq<char>>::empty());
    }
    None
}

/// The record a model file's name gives: its stem as id, the first quantization tag found
/// in the lowercased stem, and the format by its extension (see `format_for`). `extension`
/// is the file's extension, if it has one; `is_dir` whether the path is a directory.
pub fn metadata_from_file_name(stem: String, local_path: PathBuf, extension: Option<String>, is_dir: bool) -> (m:
    ModelMetadata)
    ensures
        file_record_ok(m, stem@, lowercase(stem@), local_path, opt_view(extension), is_dir),
{
    let lower = to_lowercase(stem.as_str());
    let quantization = first_quant_tag(lower.as_str());
    let format = match &extension {
        Some(e) => if str_eq(e.as_str(), "gguf") {
            String::from_str("gguf")
        } else if str_eq(e.as_str(), "safetensors") {
            String::from_str("safetensors")
        } else if is_dir {
            String::from_str("safetensors")
        } else {
            String::from_str("unknown")
        },
        None => String::from_str("unknown"),
    };
    ModelMetadata {
        model_id: stem,
        source_type: SourceType::Local,
        source_ref: String::from_str("local"),
        local_path,
        format,
        architecture: None,
        parameter_count: None,
        quantization,
        gguf_tensor_type: None,
        context_length: None,
        recommended_mode: Some(String::from_str("auto")),
        tags: Vec::new(),
    }
}

fn gguf_file_type_str(v: u32) -> (r: Option<&'static str>)
    ensures
        match r {
            Some(s) => gguf_file_tensor_type(v) == Some(s@),
            None => gguf_file_tensor_type(v) is None,
        },
{
    if v == 2 { Some("q4_0") }
    else if v == 3 { Some("q4_1") }
    else if v == 8 { Some("q8_0") }
    else if v == 9 { Some("q8_1") }
    else if v == 10 { Some("q2_k") }
    else if v == 11 { Some("q3_k") }
    else if v == 12 { Some("q4_k") }
    else if v == 13 { Some("q5_k") }
    else if v == 14 { Some("q6_k") }
    else if v == 15 { Some("q8_k") }
    else { None }
}

/// `new` is `old` with what a GGUF header tells added: the architecture (and, with it, the
/// context length read under that architecture's key), and the file type, recorded as
/// `type_{v}` and, when no quantization was known, as the quantization it names (or
/// `type_{v}` when it names none). Nothing else changes.
pub open spec fn header_applied(
    old: ModelMetadata,
    new: ModelMetadata,
    architecture: Option<Seq<char>>,
    context_length: Option<u64>,
    file_type: Option<u32>,
) -> bool {
    &&& opt_view(new.architecture) == match architecture {
        Some(a) => Some(a),
        None => opt_view(old.architecture),
    }
    &&& new.context_length == match (architecture, context_length) {
        (Some(_), Some(c)) => Some(c as usize),
        _ => old.context_length,
    }
    &&& opt_view(new.gguf_tensor_type) == match file_type {
        Some(v) => Some("type_"@ + decimal(v as nat)),
        None => opt_view(old.gguf_tensor_type),
    }
    &&& opt_view(new.quantization) == match file_type {
        Some(v) => if old.quantization is None {
            match gguf_file_tensor_type(v) {
                Some(q) => Some(q),
                None => Some("type_"@ + decimal(v as nat)),
            }
        } else {
            opt_view(old.quantization)
        },
        None => opt_view(old.quantization),
    }
    &&& new.model_id == old.model_id
    &&& new.source_type == old.source_type
    &&& new.source_ref == old.source_ref
    &&& new.local_path == old.local_path
    &&& new.format == old.format
    &&& new.parameter_count == old.parameter_count
    &&& new.recommended_mode == old.recommended_mode
    &&& new.tags == old.tags
}

/// Adds what a GGUF header tells to a record (see `header_applied`).
pub fn apply_gguf_header(
    m: &mut ModelMetadata,
    architecture: Option<String>,
    context_length: Option<u64>,
    file_type: Option<u32>,
)
    ensures
        header_applied(*old(m), *final(m), opt_view(architecture), context_length, file_type),
{
    if let Some(arch) = architecture {
        m.architecture = Some(arch);
        if let Some(ctx) = context_length {
            m.context_length = Some(ctx as usize);
        }
    }
    if let Some(v) = file_type {
        let tensor_type = String::from_str("type_").concat(usize_to_decimal(v as usize).as_str());
        m.gguf_tensor_type = Some(tensor_type);
        if m.quantization.is_none() {
            match gguf_file_type_str(v) {
                Some(q) => {
                    m.quantization = Some(String::from_str(q));
                },
                None => {
                    m.quantization = Some(String::from_str("type_").concat(usize_to_decimal(v as usize).as_str()));
                },
            }
        }
    }
}

/// Law: a GGUF header's file type `v` is recorded as the tensor type `type_{v}`; a record that
/// already had a quantization keeps it, and one that had none gets the quantization the file
/// type names: 2 q4_0, 3 q4_1, 8 q8_0, 9 q8_1, 10 q2_k, 11 q3_k, 12 q4_k, 13 q5_k, 14 q6_k,
/// 15 q8_k, and `type_{v}` for any other code.
pub proof fn law_file_type_quantization(
    old: ModelMetadata,
    new: ModelMetadata,
    architecture: Option<Seq<char>>,
    context_length: Option<u64>,
    v: u32,
)
    requires
        header_applied(old, new, architecture, context_length, Some(v)),
    ensures
        opt_view(new.gguf_tensor_type) == Some("type_"@ + decimal(v as nat)),
        old.quantization is Some ==> opt_view(new.quantization) == opt_view(old.quantization),
        old.quantization is None ==> opt_view(new.quantization) == Some(
            if v == 2 { "q4_0"@ }
            else if v == 3 { "q4_1"@ }
            else if v == 8 { "q8_0"@ }
            else if v == 9 { "q8_1"@ }
            else if v == 10 { "q2_k"@ }
            else if v == 11 { "q3_k"@ }
            else if v == 12 { "q4_k"@ }
            else if v == 13 { "q5_k"@ }
            else if v == 14 { "q6_k"@ }
            else if v == 15 { "q8_k"@ }
            else { "type_"@ + decimal(v as nat) }
        ),
{
}

/// A value of a GGUF header's metadata, as far as the registry reads it.
pub enum GgufValue {
    U32(u32),
    U64(u64),
    Text(String),
    Other,
}

/// A GGUF metadata value as plain values.
pub enum GgufValueView {
    U32(u32),
    U64(u64),
    Text(Seq<char>),
    Other,
}

impl View for GgufValue {
    type V = GgufValueView;

    open spec fn view(&self) -> GgufValueView {
        match self {
            GgufValue::U32(x) => GgufValueView::U32(*x),
            GgufValue::U64(x) => GgufValueView::U64(*x),
            GgufValue::Text(s) => GgufValueView::Text(s@),
            GgufValue::Other => GgufValueView::Other,
        }
    }
}

/// The metadata of a GGUF file's header, key by key; `None` when the bytes are not a GGUF
/// file that candle can read.
pub uninterp spec fn gguf_metadata(bytes: Seq<u8>) -> Option<Map<Seq<char>, GgufValueView>>;

/// No key occurs twice.
pub open spec fn gguf_keys_distinct(v: Seq<(String, GgufValue)>) -> bool {
    forall|i: int, j: int| 0 <= i < j < v.len() ==> v[i].0@ != v[j].0@
}

/// The map that a list of distinct (key, value) pairs describes.
pub open spec fn gguf_map(v: Seq<(String, GgufValue)>) -> Map<Seq<char>, GgufValueView> {
    Map::new(
        |k: Seq<char>| exists|i: int| 0 <= i < v.len() && v[i].0@ == k,
        |k: Seq<char>| v[choose|i: int| 0 <= i < v.len() && v[i].0@ == k].1@,
    )
}

/// Calls candle's `gguf_file::Content::read` on the bytes of a file and lists the header's
/// metadata as key-value pairs, numbers of 32 and 64 bits and texts as they are and any other
/// value as `Other`. The keys come from a `HashMap`, so none repeats; in which order they come
/// is not stated. The reader divides by the `general.alignment` the header declares; bytes
/// whose header declares 0 (`gguf_zero_alignment`) are left out by `requires`, as the
/// division would panic.
#[verifier::external_body]
fn read_gguf_metadata(bytes: &[u8]) -> (r: Option<Vec<(String, GgufValue)>>)
    requires
        !gguf_zero_alignment(bytes@),
    ensures
        match r {
            None => gguf_metadata(bytes@) is None,
            Some(v) => gguf_metadata(bytes@) == Some(gguf_map(v@)) && gguf_keys_distinct(v@),
        },
{
    let mut reader = std::io::Cursor::new(bytes);
    match candle_core::quantized::gguf_file::Content::read(&mut reader) {
        Ok(content) => Some(content.metadata.into_iter().map(|(key, value)| (key, match value {
            candle_core::quantized::gguf_file::Value::U32(x) => GgufValue::U32(x),
            candle_core::quantized::gguf_file::Value::U64(x) => GgufValue::U64(x),
            candle_core::quantized::gguf_file::Value::String(t) => GgufValue::Text(t),
            _ => GgufValue::Other,
        })).collect()),
        Err(_) => None,
    }
}

/// A text value under `k`.
pub open spec fn gguf_text(md: Map<Seq<char>, GgufValueView>, k: Seq<char>) -> Option<Seq<char>> {
    if md.contains_key(k) {
        match md[k] {
            GgufValueView::Text(t) => Some(t),
            _ => None,
        }
    } else {
        None
    }
}

/// A 32- or 64-bit number under `k`.
pub open spec fn gguf_number(md: Map<Seq<char>, GgufValueView>, k: Seq<char>) -> Option<u64> {
    if md.contains_key(k) {
        match md[k] {
            GgufValueView::U32(x) => Some(x as u64),
            GgufValueView::U64(x) => Some(x),
            _ => None,
        }
    } else {
        None
    }
}

/// A 32-bit number under `k`.
pub open spec fn gguf_u32(md: Map<Seq<char>, GgufValueView>, k: Seq<char>) -> Option<u32> {
    if md.contains_key(k) {
        match md[k] {
            GgufValueView::U32(x) => Some(x),
            _ => None,
        }
    } else {
        None
    }
}

/// What a GGUF header tells the registry: the architecture (`general.architecture`), the
/// context length under `{architecture}.context_length` when there is an architecture, and
/// the file type (`general.file_type`).
pub open spec fn header_fields(md: Map<Seq<char>, GgufValueView>) -> (Option<Seq<char>>, Option<u64>, Option<u32>) {
    let arch = gguf_text(md, "general.architecture"@);
    (arch, match arch {
        Some(a) => gguf_number(md, a + ".context_length"@),
        None => None,
    }, gguf_u32(md, "general.file_type"@))
}

/// The value under `key`.
fn gguf_lookup<'a>(v: &'a Vec<(String, GgufValue)>, key: &str) -> (r: Option<&'a GgufValue>)
    requires
        gguf_keys_distinct(v@),
    ensures
        match r {
            Some(x) => gguf_map(v@).contains_key(key@) && x@ == gguf_map(v@)[key@],
            None => !gguf_map(v@).contains_key(key@),
        },
{
    let mut i: usize = 0;
    while i < v.len()
        invariant
            i <= v@.len(),
            gguf_keys_distinct(v@),
            forall|j: int| 0 <= j < i ==> v@[j].0@ != key@,
        decreases v@.len() - i,
    {
        if str_eq(v[i].0.as_str(), key) {
            proof {
                assert(v@[i as int].0@ == key@);
                let j = choose|j: int| 0 <= j < v@.len() && v@[j].0@ == key@;
                if j > i {
                    assert(v@[i as int].0@ != v@[j].0@);
                }
            }
            return Some(&v[i].1);
        }
        i = i + 1;
    }
    None
}

/// Reads the header of a GGUF file (see `header_fields`); `None` when the bytes are not a
/// GGUF file, and, before any reading, when the header declares an alignment of 0 (see
/// `gguf_zero_alignment`), which the reader cannot read without panicking.
pub fn gguf_header_fields(bytes: &[u8]) -> (r: Option<(Option<String>, Option<u64>, Option<u32>)>)
    ensures
        match r {
            Some(f) => {
                &&& !gguf_zero_alignment(bytes@)
                &&& gguf_metadata(bytes@) matches Some(md) && (opt_view(f.0), f.1, f.2) == header_fields(md)
            },
            None => gguf_zero_alignment(bytes@) || gguf_metadata(bytes@) is None,
        },
{
    if declares_zero_alignment(bytes) {
        return None;
    }
    match read_gguf_metadata(bytes) {
        Some(v) => Some(header_fields_from(&v)),
        None => None,
    }
}

/// What a GGUF header's metadata, given as distinct key-value pairs, tells the registry (see
/// `header_fields`).
pub fn header_fields_from(v: &Vec<(String, GgufValue)>) -> (r: (Option<String>, Option<u64>, Option<u32>))
    requires
        gguf_keys_distinct(v@),
    ensures
        (opt_view(r.0), r.1, r.2) == header_fields(gguf_map(v@)),
{
    let architecture = match gguf_lookup(v, "general.architecture") {
        Some(GgufValue::Text(t)) => Some(t.clone()),
        _ => None,
    };
    let context_length = match &architecture {
        Some(a) => {
            let key = a.clone().concat(".context_length");
            match gguf_lookup(v, key.as_str()) {
                Some(GgufValue::U32(x)) => Some(*x as u64),
                Some(GgufValue::U64(x)) => Some(*x),
                _ => None,
            }
        },
        None => None,
    };
    let file_type = match gguf_lookup(v, "general.file_type") {
        Some(GgufValue::U32(x)) => Some(*x),
        _ => None,
    };
    (architecture, context_length, file_type)
}

/// The header fields a model file's bytes give, when the file is in GGUF format and could be
/// read: `None` for other files, files whose bytes are not at hand, files whose header
/// declares an alignment of 0 (which are not read), and files candle cannot read.
pub open spec fn gguf_fields_for(format: Seq<char>, bytes: Option<Seq<u8>>) -> Option<(Option<Seq<char>>, Option<u64>, Option<u32>)> {
    if format == "gguf"@ {
        match bytes {
            Some(b) => if gguf_zero_alignment(b) {
                None
            } else {
                match gguf_metadata(b) {
                    Some(md) => Some(header_fields(md)),
                    None => None,
                }
            },
            None => None,
        }
    } else {
        None
    }
}

/// The record of a local model file: what its name gives (see `metadata_from_file_name`),
/// with, for a GGUF file, what its header adds (see `header_applied`). `gguf_bytes` are the
/// file's contents, when it could be opened.
pub fn detect_metadata(
    stem: String,
    local_path: PathBuf,
    extension: Option<String>,
    is_dir: bool,
    gguf_bytes: Option<&[u8]>,
) -> (m: ModelMetadata)
    ensures
        exists|base: ModelMetadata|
            {
                &&& file_record_ok(base, stem@, lowercase(stem@), local_path, opt_view(extension), is_dir)
                &&& match gguf_fields_for(base.format@, match gguf_bytes { Some(b) => Some(b@), None => None }) {
                    Some(h) => header_applied(base, m, h.0, h.1, h.2),
                    None => m == base,
                }
            },
{
    let ghost stem_v = stem@;
    let ghost ext_v = opt_view(extension);
    let ghost path_v = local_path;
    let ghost bytes_v = match gguf_bytes { Some(b) => Some(b@), None => None };
    let mut m = metadata_from_file_name(stem, local_path, extension, is_dir);
    let ghost base = m;
    if str_eq(m.format.as_str(), "gguf") {
        if let Some(b) = gguf_bytes {
            if let Some((architecture, context_length, file_type)) = gguf_header_fields(b) {
                apply_gguf_header(&mut m, architecture, context_length, file_type);
            }
        }
    }
    assert(file_record_ok(base, stem_v, lowercase(stem_v), path_v, ext_v, is_dir));
    assert(match gguf_fields_for(base.format@, bytes_v) {
        Some(h) => header_applied(base, m, h.0, h.1, h.2),
        None => m == base,
    });
    m
}

/// The records are sorted by model id.
pub open spec fn sorted_by_id(s: Seq<&ModelMetadata>) -> bool {
    forall|i: int, j: int| 0 <= i < j < s.len() ==> lex_le((#[trigger] s[i]).model_id@, (#[trigger] s[j]).model_id@)
}

/// The local model registry, kept in a file at `path`.
pub struct Registry {
    path: PathBuf,
    pub config: RegistryConfig,
}

impl Registry {
    /// The registry's records keyed by id.
    pub closed spec fn models(&self) -> Map<Seq<char>, ModelMetadata> {
        self.config@
    }

    /// The registry's records, in storage order.
    pub closed spec fn records(&self) -> Seq<ModelMetadata> {
        self.config.records()
    }

    /// The file the registry is kept in.
    pub closed spec fn location(&self) -> PathBuf {
        self.path
    }

    /// A registry kept at `path` with the given contents.
    pub fn from_parts(path: PathBuf, config: RegistryConfig) -> (r: Self)
        ensures
            r.models() == config@,
            r.location() == path,
    {
        Registry { path, config }
    }

    /// Where the registry is kept.
    pub fn path(&self) -> (p: &PathBuf)
        ensures
            *p == self.location(),
    {
        &self.path
    }

    /// Registers `metadata` under its model id, replacing any record with that id.
    pub fn add(&mut self, metadata: ModelMetadata)
        ensures
            final(self).models() == old(self).models().insert(metadata.model_id@, metadata),
            final(self).models().dom().finite(),
            final(self).models().len() == old(self).models().len() + if old(self).models().contains_key(
                metadata.model_id@,
            ) {
                0int
            } else {
                1int
            },
            final(self).location() == old(self).location(),
    {
        proof {
            use_type_invariant(&self.config);
            lemma_entries_map(self.config.models@);
        }
        let key = metadata.model_id.clone();
        self.config.insert(key, metadata);
        proof {
            use_type_invariant(&self.config);
            lemma_entries_map(self.config.models@);
        }
    }

    /// Unregisters the model `id`; says whether it was registered.
    pub fn remove(&mut self, id: &str) -> (r: bool)
        ensures
            r == old(self).models().contains_key(id@),
            final(self).models() == old(self).models().remove(id@),
            final(self).models().dom().finite(),
            final(self).models().len() == old(self).models().len() - if r { 1int } else { 0int },
            final(self).location() == old(self).location(),
    {
        proof {
            use_type_invariant(&self.config);
            lemma_entries_map(self.config.models@);
        }
        let r = self.config.remove_key(id);
        proof {
            use_type_invariant(&self.config);
            lemma_entries_map(self.config.models@);
        }
        r
    }

    /// The record of model `id`.
    pub fn get(&self, id: &str) -> (r: Option<&ModelMetadata>)
        ensures
            match r {
                Some(m) => self.models().contains_key(id@) && *m == self.models()[id@],
                None => !self.models().contains_key(id@),
            },
    {
        self.config.get_key(id)
    }

    /// All records, sorted by model id.
    pub fn list(&self) -> (r: Vec<&ModelMetadata>)
        ensures
            r@.map_values(|m: &ModelMetadata| *m).to_multiset() == self.records().to_multiset(),
            sorted_by_id(r@),
            r@.len() == self.models().len(),
            forall|i: int| 0 <= i < r@.len() ==> self.models().contains_value(*(#[trigger] r@[i])),
            forall|k: Seq<char>| #[trigger] self.models().contains_key(k) ==> exists|i: int| 0 <= i < r@.len()
                && *r@[i] == self.models()[k],
    {
        let entries = self.config.pairs();
        proof {
            lemma_entries_map(entries@);
        }
        let mut out: Vec<&ModelMetadata> = Vec::new();
        let mut i: usize = 0;
        assert(out@.map_values(|m: &ModelMetadata| *m) =~= Seq::<ModelMetadata>::empty());
        assert(entries@.take(0).map_values(|e: (String, ModelMetadata)| e.1) =~= Seq::<ModelMetadata>::empty());
        while i < entries.len()
            invariant
                i <= entries@.len(),
                entries@ == self.config.entries(),
                out@.len() == i,
                out@.map_values(|m: &ModelMetadata| *m).to_multiset() == entries@.take(i as int).map_values(
                    |e: (String, ModelMetadata)| e.1).to_multiset(),
                sorted_by_id(out@),
            decreases entries@.len() - i,
        {
            let m = &entries[i].1;
            let mut p: usize = 0;
            while p < out.len() && str_lex_le(out[p].model_id.as_str(), m.model_id.as_str())
                invariant
                    p <= out@.len(),
                    forall|j: int| 0 <= j < p ==> lex_le((#[trigger] out@[j]).model_id@, m.model_id@),
                decreases out@.len() - p,
            {
                p = p + 1;
            }
            let ghost before = out@;
            out.insert(p, m);
            proof {
                assert(out@ =~= before.insert(p as int, m));
                lemma_sorted_insert(before, p as int, m);
                lemma_multiset_insert(before, p as int, m);
                let t = entries@.take(i + 1).map_values(|e: (String, ModelMetadata)| e.1);
                let t0 = entries@.take(i as int).map_values(|e: (String, ModelMetadata)| e.1);
                assert(t =~= t0.push(*m));
                t0.to_multiset_ensures();
            }
            i = i + 1;
        }
        proof {
            assert(entries@.take(entries@.len() as int) =~= entries@);
            let rv = out@.map_values(|m: &ModelMetadata| *m);
            let rec = entries@.map_values(|e: (String, ModelMetadata)| e.1);
            assert(rec == self.records());
            assert(entries@.take(entries@.len() as int).map_values(|e: (String, ModelMetadata)| e.1) =~= rec);
            assert(rv.to_multiset() == rec.to_multiset());
            rv.to_multiset_ensures();
            rec.to_multiset_ensures();
            assert forall|i: int| 0 <= i < out@.len() implies self.models().contains_value(*(#[trigger] out@[i])) by {
                assert(rv[i] == *out@[i]);
                assert(rv.contains(rv[i]));
                assert(rec.to_multiset().count(rv[i]) > 0);
                assert(rec.contains(rv[i]));
                let j = choose|j: int| 0 <= j < rec.len() && rec[j] == rv[i];
                assert(self.models().contains_key(entries@[j].0@));
            }
            assert forall|k: Seq<char>| #[trigger] self.models().contains_key(k) implies exists|i: int| 0 <= i < out@.len()
                && *out@[i] == self.models()[k] by {
                let j = choose|j: int| 0 <= j < entries@.len() && entries@[j].0@ == k;
                assert(rec[j] == self.models()[k]);
                assert(rec.contains(rec[j]));
                assert(rv.to_multiset().count(rec[j]) > 0);
                assert(rv.contains(rec[j]));
                let i = choose|i: int| 0 <= i < rv.len() && rv[i] == rec[j];
                assert(*out@[i] == rv[i]);
            }
        }
        out
    }
}

/// Law: the record added for a model is what `get` returns for its id afterwards, and every
/// other id reads as it did before the `add`.
pub proof fn law_get_after_add(before: &Registry, after: &Registry, m: ModelMetadata, id: Seq<char>)
    requires
        after.models() == before.models().insert(m.model_id@, m),
    ensures
        after.models().contains_key(m.model_id@),
        after.models()[m.model_id@] == m,
        id != m.model_id@ ==> after.models().contains_key(id) == before.models().contains_key(id),
        id != m.model_id@ && before.models().contains_key(id) ==> after.models()[id] == before.models()[id],
{
}

/// Law: after `remove(id)`, `get(id)` finds nothing, every other id reads as before, and a
/// second `remove(id)` reports that nothing was registered.
pub proof fn law_get_after_remove(before: &Registry, after: &Registry, id: Seq<char>, other: Seq<char>)
    requires
        after.models() == before.models().remove(id),
    ensures
        !after.models().contains_key(id),
        after.models().remove(id) == after.models(),
        other != id ==> after.models().contains_key(other) == before.models().contains_key(other),
        other != id && before.models().contains_key(other) ==> after.models()[other] == before.models()[other],
{
    assert(after.models().remove(id) =~= after.models());
}

/// Law: registering a model under a new id and then removing that id gives back the
/// registry's contents.
pub proof fn law_add_then_remove_restores(r1: &Registry, r2: &Registry, r3: &Registry, m: ModelMetadata)
    requires
        !r1.models().contains_key(m.model_id@),
        r2.models() == r1.models().insert(m.model_id@, m),
        r3.models() == r2.models().remove(m.model_id@),
    ensures
        r3.models() == r1.models(),
{
    assert(r3.models() =~= r1.models());
}

/// Lemma: inserting where every earlier record is no later and the next one is later keeps
/// the records sorted.
proof fn lemma_sorted_insert(s: Seq<&ModelMetadata>, p: int, m: &ModelMetadata)
    requires
        sorted_by_id(s),
        0 <= p <= s.len(),
        forall|j: int| 0 <= j < p ==> lex_le((#[trigger] s[j]).model_id@, m.model_id@),
        p < s.len() ==> !lex_le(s[p].model_id@, m.model_id@),
    ensures
        sorted_by_id(s.insert(p, m)),
{
    let t = s.insert(p, m);
    s.insert_ensures(p, m);
    if p < s.len() {
        lemma_lex_total(s[p].model_id@, m.model_id@);
    }
    assert forall|i: int, j: int| 0 <= i < j < t.len() implies lex_le((#[trigger] t[i]).model_id@, (#[trigger] t[j]).model_id@) by {
        if j < p {
            assert(t[i] == s[i] && t[j] == s[j]);
        } else if j == p {
            assert(t[i] == s[i]);
        } else if i == p {
            assert(t[j] == s[j - 1]);
            if j - 1 > p {
                lemma_lex_trans(m.model_id@, s[p].model_id@, s[j - 1].model_id@);
            }
        } else if i < p {
            assert(t[i] == s[i] && t[j] == s[j - 1]);
        } else {
            assert(t[i] == s[i - 1] && t[j] == s[j - 1]);
        }
    }
}

/// Lemma: inserting a record adds it to the multiset of records.
proof fn lemma_multiset_insert(s: Seq<&ModelMetadata>, p: int, m: &ModelMetadata)
    requires
        0 <= p <= s.len(),
    ensures
        s.insert(p, m).map_values(|x: &ModelMetadata| *x).to_multiset() == s.map_values(|x: &ModelMetadata| *x).to_multiset().insert(*m),
{
    let a = s.insert(p, m).map_values(|x: &ModelMetadata| *x);
    let b = s.map_values(|x: &ModelMetadata| *x);
    s.insert_ensures(p, m);
    assert(a =~= b.insert(p, *m));
    // b.insert(p, m) == b.take(p) + [m] + b.skip(p); moving m to the end keeps the multiset.
    let pre = b.take(p);
    let post = b.skip(p);
    assert(b =~= pre + post);
    assert(b.insert(p, *m) =~= pre.push(*m) + post);
    vstd::seq_lib::lemma_multiset_commutative(pre.push(*m), post);
    vstd::seq_lib::lemma_multiset_commutative(pre, post);
    pre.to_multiset_ensures();
    vstd::seq_lib::lemma_multiset_commutative(post, pre.push(*m));
    vstd::seq_lib::lemma_multiset_commutative(post, pre);
    assert(post + pre.push(*m) =~= (post + pre).push(*m));
    (post + pre).to_multiset_ensures();
}

} // verus!
