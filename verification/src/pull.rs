//! Choices made while pulling a model: which files of a repository to fetch, and how Ollama
//! model names, manifests and URLs map to files.
use vstd::prelude::*;
use crate::text::{chars_of, find_char, rfind_char, replace_char, seq_contains, seq_ends_with, str_contains,
    str_ends_with, str_replace_char};
use vstd::string::*;
use std::path::PathBuf;
use crate::registry::{ModelMetadata, SourceType};

verus! {

/// A file holding model weights (GGUF or safetensors).
pub open spec fn is_weights_name(n: Seq<char>) -> bool {
    seq_ends_with(n, ".gguf"@) || seq_ends_with(n, ".safetensors"@)
}

/// A weights file preferred over the others (Q4_K quantized).
pub open spec fn is_preferred_weights(n: Seq<char>) -> bool {
    is_weights_name(n) && seq_contains(n, "Q4_K"@)
}

/// The weights file to fetch among a repository's files: the last Q4_K weights file, else the
/// first weights file.
pub open spec fn target_weights(names: Seq<Seq<char>>) -> Option<Seq<char>> {
    if exists|i: int| 0 <= i < names.len() && is_preferred_weights(names[i]) {
        let i = choose|i: int| 0 <= i < names.len() && is_preferred_weights(names[i])
            && forall|j: int| i < j < names.len() ==> !is_preferred_weights(#[trigger] names[j]);
        Some(names[i])
    } else if exists|i: int| 0 <= i < names.len() && is_weights_name(names[i]) {
        let i = choose|i: int| 0 <= i < names.len() && is_weights_name(names[i])
            && forall|j: int| 0 <= j < i ==> !is_weights_name(#[trigger] names[j]);
        Some(names[i])
    } else {
        None
    }
}

fn is_weights(n: &str) -> (b: bool)
    ensures
        b == is_weights_name(n@),
{
    str_ends_with(n, ".gguf") || str_ends_with(n, ".safetensors")
}

/// Picks the weights file to download from a repository listing (see `target_weights`).
pub fn select_target_weights(names: &Vec<String>) -> (r: Option<String>)
    ensures
        match r {
            Some(n) => target_weights(names@.map_values(|s: String| s@)) == Some(n@),
            None => target_weights(names@.map_values(|s: String| s@)) is None,
        },
{
    let ghost ns = names@.map_values(|s: String| s@);
    let mut target: Option<usize> = None;
    let mut i: usize = 0;
    while i < names.len()
        invariant
            i <= names@.len(),
            ns == names@.map_values(|s: String| s@),
            match target {
                None => forall|j: int| 0 <= j < i ==> !is_weights_name(#[trigger] ns[j]),
                Some(t) => {
                    &&& t < i
                    &&& is_weights_name(ns[t as int])
                    &&& if exists|j: int| 0 <= j < i && is_preferred_weights(ns[j]) {
                        &&& is_preferred_weights(ns[t as int])
                        &&& forall|j: int| t < j < i ==> !is_preferred_weights(#[trigger] ns[j])
                    } else {
                        forall|j: int| 0 <= j < t ==> !is_weights_name(#[trigger] ns[j])
                    }
                },
            },
        decreases names@.len() - i,
    {
        let n = names[i].as_str();
        assert(ns[i as int] == names@[i as int]@);
        if is_weights(n) && (target.is_none() || str_contains(n, "Q4_K")) {
            target = Some(i);
        }
        i = i + 1;
    }
    proof {
        match target {
            Some(t) => {
                if exists|j: int| 0 <= j < ns.len() && is_preferred_weights(ns[j]) {
                    let c = choose|c: int| 0 <= c < ns.len() && is_preferred_weights(ns[c])
                        && forall|j: int| c < j < ns.len() ==> !is_preferred_weights(#[trigger] ns[j]);
                    assert(is_preferred_weights(ns[t as int]));
                    if c < t {
                        assert(!is_preferred_weights(ns[t as int]));
                    } else if c > t {
                        assert(!is_preferred_weights(ns[c]));
                    }
                } else {
                    let c = choose|c: int| 0 <= c < ns.len() && is_weights_name(ns[c])
                        && forall|j: int| 0 <= j < c ==> !is_weights_name(#[trigger] ns[j]);
                    assert(is_weights_name(ns[t as int]));
                    if c < t {
                        assert(!is_weights_name(ns[c]));
                    } else if c > t {
                        assert(!is_weights_name(ns[t as int]));
                    }
                }
            },
            None => {
                assert(!exists|j: int| 0 <= j < ns.len() && is_weights_name(ns[j]));
            },
        }
    }
    match target {
        Some(t) => Some(names[t].clone()),
        None => None,
    }
}

/// A configuration or tokenizer file that is fetched along with the weights.
pub open spec fn is_config_name(n: Seq<char>) -> bool {
    seq_ends_with(n, "config.json"@) || seq_ends_with(n, "tokenizer.json"@) || seq_ends_with(n, "tokenizer_config.json"@)
}

/// Whether a repository file is fetched: it is the chosen weights file or a configuration file.
pub fn should_download(name: &str, target: &Option<String>) -> (b: bool)
    ensures
        b == ((target matches Some(t) && t@ == name@) || is_config_name(name@)),
{
    let is_target = match target {
        Some(t) => crate::text::str_eq(t.as_str(), name),
        None => false,
    };
    is_target || str_ends_with(name, "config.json") || str_ends_with(name, "tokenizer.json") || str_ends_with(name,
        "tokenizer_config.json")
}

/// An Ollama model reference split at its first ':' into name and tag; the tag is "latest"
/// when there is no ':'.
pub open spec fn model_and_tag(model: Seq<char>) -> (Seq<char>, Seq<char>) {
    if model.contains(':') {
        let i = choose|i: int| 0 <= i < model.len() && model[i] == ':' && forall|j: int| 0 <= j < i ==> model[j] != ':';
        (model.subrange(0, i), model.subrange(i + 1, model.len() as int))
    } else {
        (model, "latest"@)
    }
}

/// Splits an Ollama model reference into name and tag (see `model_and_tag`).
pub fn split_model_tag(model: &str) -> (r: (String, String))
    ensures
        (r.0@, r.1@) == model_and_tag(model@),
{
    let v = chars_of(model);
    let n = v.len();
    match find_char(&v, ':') {
        Some(i) => {
            proof {
                let c = choose|c: int| 0 <= c < model@.len() && model@[c] == ':' && forall|j: int| 0 <= j < c
                    ==> model@[j] != ':';
                assert(model@.contains(':'));
                if c < i {
                    assert(v@[c] != ':');
                } else if c > i {
                    assert(model@[i as int] == ':');
                }
            }
            (String::from_str(model.substring_char(0, i)), String::from_str(model.substring_char(i + 1, n)))
        },
        None => (String::from_str(model), String::from_str("latest")),
    }
}

/// The file name a URL points to: what follows its last '/' (the whole URL when it has none).
pub open spec fn url_file_name(url: Seq<char>) -> Seq<char> {
    if url.contains('/') {
        let i = choose|i: int| 0 <= i < url.len() && url[i] == '/' && forall|j: int| i < j < url.len() ==> url[j] != '/';
        url.subrange(i + 1, url.len() as int)
    } else {
        url
    }
}

/// The file name a URL points to (see `url_file_name`).
pub fn file_name_from_url(url: &str) -> (r: String)
    ensures
        r@ == url_file_name(url@),
{
    let v = chars_of(url);
    let n = v.len();
    match rfind_char(&v, '/') {
        Some(i) => {
            proof {
                let c = choose|c: int| 0 <= c < url@.len() && url@[c] == '/' && forall|j: int| c < j < url@.len()
                    ==> url@[j] != '/';
                assert(url@.contains('/'));
                if c < i {
                    assert(url@[i as int] == '/');
                } else if c > i {
                    assert(v@[c] != '/');
                }
            }
            String::from_str(url.substring_char(i + 1, n))
        },
        None => String::from_str(url),
    }
}

/// Names of an Ollama import: the blob file of a layer digest (':' replaced by '-'), the file
/// the model is copied to, and its registry id.
pub fn ollama_blob_name(digest: &str) -> (r: String)
    ensures
        r@ == replace_char(digest@, ':', "-"@),
{
    str_replace_char(digest, ':', "-")
}

/// The file an imported Ollama model is copied to: its reference with ':' replaced by '-',
/// and a `.gguf` extension.
pub fn ollama_file_name(model: &str) -> (r: String)
    ensures
        r@ == replace_char(model@, ':', "-"@) + ".gguf"@,
{
    str_replace_char(model, ':', "-").concat(".gguf")
}

/// The registry id of an imported Ollama model.
pub fn ollama_model_id(model: &str) -> (r: String)
    ensures
        r@ == "ollama/"@ + model@,
{
    String::from_str("ollama/").concat(model)
}

/// The registry record of a model imported from Ollama and copied to `local_path`: id
/// `ollama/{model}`, source Ollama with the reference as given, GGUF format, recommended mode
/// "auto", tagged "ollama", nothing else known.
pub fn ollama_metadata(model: &str, local_path: PathBuf) -> (m: ModelMetadata)
    ensures
        m.model_id@ == "ollama/"@ + model@,
        m.source_type == SourceType::Ollama,
        m.source_ref@ == model@,
        m.local_path == local_path,
        m.format@ == "gguf"@,
        m.architecture is None,
        m.parameter_count is None,
        m.quantization is None,
        m.gguf_tensor_type is None,
        m.context_length is None,
        m.recommended_mode matches Some(r) && r@ == "auto"@,
        m.tags@.len() == 1 && m.tags@[0]@ == "ollama"@,
{
    let mut tags: Vec<String> = Vec::new();
    tags.push(String::from_str("ollama"));
    ModelMetadata {
        model_id: ollama_model_id(model),
        source_type: SourceType::Ollama,
        source_ref: String::from_str(model),
        local_path,
        format: String::from_str("gguf"),
        architecture: None,
        parameter_count: None,
        quantization: None,
        gguf_tensor_type: None,
        context_length: None,
        recommended_mode: Some(String::from_str("auto")),
        tags,
    }
}

/// A layer of an Ollama manifest, as far as the import reads it.
pub struct OllamaLayer {
    pub media_type: Option<String>,
    pub size: Option<u64>,
    pub digest: Option<String>,
}

/// A manifest layer whose media type mentions "model".
pub open spec fn is_model_layer(l: OllamaLayer) -> bool {
    l.media_type matches Some(t) && seq_contains(t@, "model"@)
}

/// A manifest layer's size, 0 when it is not given.
pub open spec fn layer_size(l: OllamaLayer) -> u64 {
    match l.size {
        Some(s) => s,
        None => 0,
    }
}

/// The layer holding the model weights: among the layers whose media type mentions "model",
/// the largest (the last of equals).
pub open spec fn is_model_weights_layer(layers: Seq<OllamaLayer>, i: int) -> bool {
    &&& 0 <= i < layers.len()
    &&& is_model_layer(layers[i])
    &&& forall|j: int| 0 <= j < layers.len() && is_model_layer(#[trigger] layers[j]) ==> layer_size(layers[j])
        <= layer_size(layers[i])
    &&& forall|j: int| i < j < layers.len() && is_model_layer(#[trigger] layers[j]) ==> layer_size(layers[j])
        < layer_size(layers[i])
}

/// Index of the manifest layer holding the model weights (see `is_model_weights_layer`).
pub fn select_model_layer(layers: &Vec<OllamaLayer>) -> (r: Option<usize>)
    ensures
        match r {
            Some(i) => is_model_weights_layer(layers@, i as int),
            None => forall|j: int| 0 <= j < layers@.len() ==> !is_model_layer(#[trigger] layers@[j]),
        },
{
    let mut best: Option<usize> = None;
    let mut i: usize = 0;
    while i < layers.len()
        invariant
            i <= layers@.len(),
            match best {
                Some(b) => is_model_weights_layer(layers@.subrange(0, i as int), b as int),
                None => forall|j: int| 0 <= j < i ==> !is_model_layer(#[trigger] layers@[j]),
            },
        decreases layers@.len() - i,
    {
        let ghost prefix = layers@.subrange(0, i as int);
        let ghost next = layers@.subrange(0, i + 1);
        let is_model = match &layers[i].media_type {
            Some(t) => str_contains(t.as_str(), "model"),
            None => false,
        };
        if is_model {
            let size = match layers[i].size { Some(s) => s, None => 0 };
            let take = match best {
                None => true,
                Some(b) => size >= match layers[b].size { Some(s) => s, None => 0 },
            };
            if take {
                proof {
                    assert forall|j: int| 0 <= j < next.len() && is_model_layer(#[trigger] next[j]) implies layer_size(
                        next[j]) <= layer_size(next[i as int]) by {
                        if j < i {
                            assert(next[j] == prefix[j]);
                        }
                    }
                }
                best = Some(i);
            } else {
                proof {
                    let b = best.unwrap() as int;
                    assert(prefix[b] == next[b]);
                    assert forall|j: int| 0 <= j < next.len() && is_model_layer(#[trigger] next[j]) implies layer_size(
                        next[j]) <= layer_size(next[b]) by {
                        if j < i {
                            assert(next[j] == prefix[j]);
                        }
                    }
                    assert forall|j: int| b < j < next.len() && is_model_layer(#[trigger] next[j]) implies layer_size(
                        next[j]) < layer_size(next[b]) by {
                        if j < i {
                            assert(next[j] == prefix[j]);
                        }
                    }
                }
            }
        } else {
            proof {
                match best {
                    Some(b) => {
                        let b = b as int;
                        assert(prefix[b] == next[b]);
                        assert forall|j: int| 0 <= j < next.len() && is_model_layer(#[trigger] next[j]) implies layer_size(
                            next[j]) <= layer_size(next[b]) by {
                            assert(next[j] == prefix[j]);
                        }
                        assert forall|j: int| b < j < next.len() && is_model_layer(#[trigger] next[j]) implies layer_size(
                            next[j]) < layer_size(next[b]) by {
                            assert(next[j] == prefix[j]);
                        }
                    },
                    None => {},
                }
            }
        }
        i = i + 1;
    }
    assert(layers@.subrange(0, i as int) =~= layers@);
    best
}

/// What to do with the response to a URL download.
#[derive(Debug, Clone, Copy, PartialEq, Eq, Structural)]
pub enum DownloadVerdict {
    /// Store the body.
    Proceed,
    /// The status is not a success (2xx).
    StatusFailed,
    /// The server sent an HTML page instead of a model.
    HtmlReceived,
}

/// The verdict on a download response with HTTP status `status` and, when it has a readable
/// one, the content type `content_type`: a status outside 200..=299 fails; then a content
/// type that contains `text/html` fails; otherwise the body is stored.
pub fn download_verdict(status: u16, content_type: Option<&str>) -> (r: DownloadVerdict)
    ensures
        r == if !(200 <= status <= 299) {
            DownloadVerdict::StatusFailed
        } else if content_type matches Some(t) && seq_contains(t@, "text/html"@) {
            DownloadVerdict::HtmlReceived
        } else {
            DownloadVerdict::Proceed
        },
{
    if status < 200 || status > 299 {
        return DownloadVerdict::StatusFailed;
    }
    match content_type {
        Some(t) => if str_contains(t, "text/html") {
            DownloadVerdict::HtmlReceived
        } else {
            DownloadVerdict::Proceed
        },
        None => DownloadVerdict::Proceed,
    }
}

/// An extension of a file the registry takes (GGUF or safetensors).
pub open spec fn is_registrable_extension(e: Option<Seq<char>>) -> bool {
    e == Some("gguf"@) || e == Some("safetensors"@)
}

/// Which of the downloaded files (given by their extensions, `None` for none or one that is
/// not text) is registered after a pull: the first GGUF or safetensors file, if any.
pub fn file_to_register(extensions: &Vec<Option<String>>) -> (r: Option<usize>)
    ensures
        match r {
            Some(i) => {
                &&& i < extensions@.len()
                &&& is_registrable_extension(crate::registry::opt_view(extensions@[i as int]))
                &&& forall|j: int| 0 <= j < i ==> !is_registrable_extension(
                    crate::registry::opt_view(#[trigger] extensions@[j]),
                )
            },
            None => forall|j: int| 0 <= j < extensions@.len() ==> !is_registrable_extension(
                crate::registry::opt_view(#[trigger] extensions@[j]),
            ),
        },
{
    let mut i: usize = 0;
    while i < extensions.len()
        invariant
            i <= extensions@.len(),
            forall|j: int| 0 <= j < i ==> !is_registrable_extension(crate::registry::opt_view(#[trigger] extensions@[j])),
        decreases extensions@.len() - i,
    {
        let ok = match &extensions[i] {
            Some(e) => crate::text::str_eq(e.as_str(), "gguf") || crate::text::str_eq(e.as_str(), "safetensors"),
            None => false,
        };
        if ok {
            return Some(i);
        }
        i = i + 1;
    }
    None
}

} // verus!
