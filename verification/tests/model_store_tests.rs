use bitshit::manifest::{ModelAsset, ModelManifest};
use bitshit::model_store::{asset_sources, sanitized_model_id, DirEntryInfo, ModelDownloader};

fn manifest(bit_depth_centi: u32) -> ModelManifest {
    ModelManifest {
        id: "bitnet:gguf:i2_s".to_string(),
        name: "bitnet".to_string(),
        architecture: "bitnet".to_string(),
        architecture_type: "gguf".to_string(),
        parameters: "2B".to_string(),
        training_tokens: "4T".to_string(),
        bit_depth_centi,
        ram_overhead_centi_gb: 50,
        download_size_bytes: 1000,
        huggingface_repo: "microsoft/bitnet".to_string(),
        huggingface_filename: "ggml-model-i2_s.gguf".to_string(),
        download_url: "https://huggingface.co/microsoft/bitnet/resolve/main/ggml-model-i2_s.gguf".to_string(),
        description: String::new(),
        is_cloud_api: false,
        requires_gpu: false,
        is_free_tier: true,
        input_modality: "Text".to_string(),
        context_window: "4096".to_string(),
        family: "bitnet".to_string(),
        category: "chat".to_string(),
        assets: vec![ModelAsset { name: "tokenizer.json".to_string(), url: "u".to_string() }],
        local_path: None,
        dna_path: None,
        has_vision: false,
        has_audio: false,
        expert_count: Some(8),
        experts_per_token: None,
    }
}

fn entry(name: &str, is_file: bool) -> DirEntryInfo {
    DirEntryInfo { name: name.to_string(), is_file }
}

#[test]
fn sanitized_ids_replace_separators_and_trim_dashes() {
    assert_eq!(sanitized_model_id("TheBloke/Llama 2:7B"), "TheBloke-Llama-2-7B");
    assert_eq!(sanitized_model_id("--a:b--"), "a-b");
    assert_eq!(sanitized_model_id("a\\b"), "a-b");
}

#[test]
fn model_dir_name_uses_last_segment() {
    assert_eq!(ModelDownloader::model_dir_name("microsoft/bitnet-b1.58-2B-4T-gguf"), "bitnet-b1.58-2B-4T-gguf");
    assert_eq!(ModelDownloader::model_dir_name("org/model:q4 "), "model-q4");
    assert_eq!(ModelDownloader::model_dir_name("plain"), "plain");
}

#[test]
fn model_dir_joins_root_category_and_name() {
    assert_eq!(ModelDownloader::model_dir("/home/u/.1bitshit/models", "chat", "org/m"), "/home/u/.1bitshit/models/chat/m");
    assert_eq!(ModelDownloader::model_dir("models/", "vision", "x"), "models/vision/x");
    assert_eq!(
        ModelDownloader::expected_path("/m", "chat", "org/m", "sub/file.gguf"),
        "/m/chat/m/file.gguf"
    );
}

#[test]
fn cached_path_prefers_the_requested_file() {
    let listing = vec![entry("other.gguf", true)];
    assert_eq!(
        ModelDownloader::get_cached_path("/m", "chat", "org/m", "w.gguf", true, Some(&listing)),
        Some("/m/chat/m/w.gguf".to_string())
    );
}

#[test]
fn cached_path_falls_back_to_first_weight_file() {
    let listing = vec![entry("notes.txt", true), entry("dir.bin", false), entry("w.GGUF", true), entry("z.onnx", true)];
    assert_eq!(
        ModelDownloader::get_cached_path("/m", "chat", "org/m", "missing.gguf", false, Some(&listing)),
        Some("/m/chat/m/w.GGUF".to_string())
    );
    assert!(ModelDownloader::is_model_cached("/m", "chat", "org/m", "missing.gguf", false, Some(&listing)));
}

#[test]
fn cached_path_is_absent_without_weights() {
    let listing = vec![entry("notes.txt", true), entry("model.part", true)];
    assert_eq!(ModelDownloader::get_cached_path("/m", "chat", "org/m", "w.gguf", false, Some(&listing)), None);
    assert!(!ModelDownloader::is_model_cached("/m", "chat", "org/m", "w.gguf", false, None));
}

#[test]
fn purge_reports_missing_directory() {
    assert_eq!(ModelDownloader::purge_model("/m", "chat", "org/m", false), Err("Model directory not found: /m/chat/m".to_string()));
    assert_eq!(ModelDownloader::purge_model("/m", "chat", "org/m", true), Ok("/m/chat/m".to_string()));
}

#[test]
fn cleanup_lists_part_and_lock_files() {
    let listing = vec![entry("a.gguf.part", true), entry("b.gguf", true), entry("c.lock", true)];
    assert_eq!(
        ModelDownloader::cleanup_partial_download("/m", "chat", "org/m", Some(&listing)),
        vec!["/m/chat/m/a.gguf.part".to_string(), "/m/chat/m/c.lock".to_string()]
    );
    assert!(ModelDownloader::cleanup_partial_download("/m", "chat", "org/m", None).is_empty());
}

#[test]
fn safe_relative_asset_normalizes_and_rejects() {
    assert_eq!(ModelDownloader::safe_relative_asset("tokenizer.json"), Ok("tokenizer.json".to_string()));
    assert_eq!(ModelDownloader::safe_relative_asset("./a//b/./c.json"), Ok("a/b/c.json".to_string()));
    assert_eq!(
        ModelDownloader::safe_relative_asset("/etc/passwd"),
        Err("Asset path must be relative: /etc/passwd".to_string())
    );
    assert_eq!(
        ModelDownloader::safe_relative_asset("a/../b"),
        Err("Unsafe asset path rejected: a/../b".to_string())
    );
    assert_eq!(ModelDownloader::safe_relative_asset("./"), Err("Asset path is empty".to_string()));
    assert_eq!(ModelDownloader::safe_relative_asset(""), Err("Asset path is empty".to_string()));
}

#[test]
fn asset_sources_try_the_base_repository_second() {
    assert_eq!(
        asset_sources("org/Model-GGUF", "tokenizer.json"),
        vec![
            (
                "org/Model-GGUF".to_string(),
                "https://huggingface.co/org/Model-GGUF/resolve/main/tokenizer.json".to_string()
            ),
            ("org/Model".to_string(), "https://huggingface.co/org/Model/resolve/main/tokenizer.json".to_string()),
        ]
    );
    assert_eq!(asset_sources("org/model", "a.json").len(), 1);
}

#[test]
fn dna_records_bit_depth_and_header_fields() {
    let header = vec![
        ("qwen2.context_length".to_string(), "32768".to_string()),
        ("tokenizer.chat_template".to_string(), "{{x}}".to_string()),
        ("tokenizer.ggml.eos_token_id".to_string(), "2".to_string()),
    ];
    let dna = ModelDownloader::generate_bitshit_dna(&manifest(158), "/m/chat/b/w.GGUF", Some(&header));
    assert_eq!(dna.model_id, "bitnet:gguf:i2_s");
    assert_eq!(dna.dynamic_attributes[0], ("bit_depth".to_string(), "1.58".to_string()));
    assert_eq!(dna.dynamic_attributes[4], ("runtime".to_string(), "1bitshit-cpu".to_string()));
    assert_eq!(dna.max_context_length, Some(32768));
    assert_eq!(dna.chat_template, Some("{{x}}".to_string()));
    assert_eq!(dna.eos_token, Some("2".to_string()));
    assert_eq!(dna.expert_count, Some(8));
}

#[test]
fn dna_ignores_header_of_non_gguf_weights() {
    let header = vec![("llama.context_length".to_string(), "4096".to_string())];
    let dna = ModelDownloader::generate_cluaiz_dna(&manifest(400), "/m/chat/b/model.onnx", Some(&header));
    assert_eq!(dna.dynamic_attributes[0].1, "4");
    assert_eq!(dna.max_context_length, None);
    let dna = ModelDownloader::generate_bitshit_dna(&manifest(250), "/m/w.gguf", Some(&header));
    assert_eq!(dna.dynamic_attributes[0].1, "2.5");
    assert_eq!(dna.max_context_length, Some(4096));
}

#[test]
fn directory_names_are_stable_single_components() {
    for id in ["org/My Model:Q4", "-x-", "a\\b c", "plain", ""] {
        let name = ModelDownloader::model_dir_name(id);
        assert!(!name.contains(['/', '\\', ':', ' ']));
        assert!(!name.starts_with('-') && !name.ends_with('-'));
        assert_eq!(ModelDownloader::model_dir_name(&name), name);
        assert_eq!(sanitized_model_id(&sanitized_model_id(id)), sanitized_model_id(id));
    }
}
