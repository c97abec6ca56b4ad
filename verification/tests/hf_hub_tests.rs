use bitshit::hf_hub::{HuggingFaceHub, RepositoryMetadata};
use bitshit::manifest::{ModelAsset, TreeEntry, TreeItem};

fn item(path: &str, size: u64) -> TreeItem {
    TreeItem { path: path.to_string(), size: Some(size) }
}

#[test]
fn split_gguf_detection() {
    assert!(HuggingFaceHub::is_split_gguf("model-00001-of-00002.gguf"));
    assert!(HuggingFaceHub::is_split_gguf("Model-00001-OF-00002.GGUF"));
    assert!(!HuggingFaceHub::is_split_gguf("model.gguf"));
    assert!(HuggingFaceHub::is_non_primary_gguf_shard("model-00002-of-00003.gguf"));
    assert!(!HuggingFaceHub::is_non_primary_gguf_shard("model-00001-of-00003.gguf"));
    assert!(!HuggingFaceHub::is_non_primary_gguf_shard("model-x2-of-00003.gguf"));
    assert!(!HuggingFaceHub::is_non_primary_gguf_shard("model.gguf"));
}

#[test]
fn gguf_quantization_labels() {
    assert_eq!(HuggingFaceHub::derive_gguf_quantization("bitnet-b1.58-2B-4T-i2_s.gguf"), ("i2_s".to_string(), 158));
    assert_eq!(HuggingFaceHub::derive_gguf_quantization("dir/Llama-3-8B-Q4_K_M.gguf"), ("q4_k_m".to_string(), 400));
    assert_eq!(HuggingFaceHub::derive_gguf_quantization("model-f16.gguf"), ("f16".to_string(), 1600));
    assert_eq!(HuggingFaceHub::derive_gguf_quantization("model-fp32.gguf"), ("f32".to_string(), 3200));
    assert_eq!(HuggingFaceHub::derive_gguf_quantization("model-tq2_0.gguf"), ("tq2_0".to_string(), 158));
    assert_eq!(HuggingFaceHub::derive_gguf_quantization("x.gguf"), ("gguf".to_string(), 400));
}

#[test]
fn onnx_precision_labels() {
    assert_eq!(HuggingFaceHub::onnx_precision("model_int8"), ("int8".to_string(), 800));
    assert_eq!(HuggingFaceHub::onnx_precision("model_q4"), ("int4".to_string(), 400));
    assert_eq!(HuggingFaceHub::onnx_precision("model_f16"), ("fp16".to_string(), 1600));
    assert_eq!(HuggingFaceHub::onnx_precision("model"), ("fp32".to_string(), 3200));
}

#[test]
fn categories_follow_pipeline_and_tags() {
    let none: Vec<String> = vec![];
    assert_eq!(HuggingFaceHub::categorize("gguf", "feature-extraction", &none), ("chat".to_string(), false, false, "Text".to_string()));
    assert_eq!(HuggingFaceHub::categorize("onnx", "feature-extraction", &none), ("embedding".to_string(), false, false, "Text".to_string()));
    let tags = vec!["clip".to_string()];
    assert_eq!(HuggingFaceHub::categorize("onnx", "", &tags), ("vision".to_string(), true, false, "Image + Text".to_string()));
    assert_eq!(HuggingFaceHub::categorize("onnx", "automatic-speech-recognition", &none).0, "audio");
    assert_eq!(HuggingFaceHub::categorize("onnx", "text-generation", &none).0, "chat");
}

#[test]
fn variants_are_primary_and_sorted_by_name() {
    let tree = vec![
        item("README.md", 10),
        item("m-Q4_K_M.gguf", 100),
        item("a-Q8_0.gguf", 200),
        item("s-00001-of-00002.gguf", 50),
        item("s-00002-of-00002.gguf", 60),
    ];
    let variants = HuggingFaceHub::list_variants("org/repo", &tree).unwrap();
    let names: Vec<(String, u128)> = variants.iter().map(|v| (v.filename.clone(), v.size_bytes)).collect();
    assert_eq!(
        names,
        vec![
            ("a-Q8_0.gguf".to_string(), 200),
            ("m-Q4_K_M.gguf".to_string(), 100),
            ("s-00001-of-00002.gguf".to_string(), 110),
        ]
    );
}

#[test]
fn variant_listing_errors() {
    let empty = vec![item("README.md", 1)];
    assert_eq!(
        HuggingFaceHub::list_variants("org/repo", &empty).err(),
        Some("No GGUF or ONNX model files were found in 'org/repo'.".to_string())
    );
    let shards = vec![item("s-00002-of-00002.gguf", 1)];
    assert_eq!(
        HuggingFaceHub::list_variants("org/repo", &shards).err(),
        Some("No primary GGUF or ONNX variants were found in 'org/repo'.".to_string())
    );
}

#[test]
fn related_assets_of_onnx_and_shards() {
    let tree = vec![
        item("onnx/model.onnx", 5),
        item("onnx/model.onnx_data", 7),
        item("onnx/other.onnx", 3),
        item("s-00001-of-00002.gguf", 1),
        item("s-00002-of-00002.gguf", 2),
    ];
    let onnx = HuggingFaceHub::related_onnx_assets(&tree, "onnx/model.onnx");
    assert_eq!(onnx.iter().map(|t| t.path.clone()).collect::<Vec<_>>(), vec!["onnx/model.onnx_data".to_string()]);
    let shards = HuggingFaceHub::related_gguf_shards(&tree, "s-00001-of-00002.gguf");
    assert_eq!(shards.iter().map(|t| t.path.clone()).collect::<Vec<_>>(), vec!["s-00002-of-00002.gguf".to_string()]);
}

#[test]
fn manifest_of_a_gguf_file() {
    let tree = vec![item("ggml-model-i2_s.gguf", 1000)];
    let header = vec![
        ("general.architecture".to_string(), "bitnet".to_string()),
        ("general.parameter_count".to_string(), "2B".to_string()),
    ];
    let m = HuggingFaceHub::build_manifest(
        "microsoft/BitNet-b1.58-2B-4T-gguf",
        "ggml-model-i2_s.gguf",
        1000,
        Some(&header),
        None,
        &tree,
    )
    .unwrap();
    assert_eq!(m.id, "bitnet-b1.58-2b-4t-gguf:gguf:i2_s");
    assert_eq!(m.bit_depth_centi, 158);
    assert_eq!(m.architecture, "bitnet");
    assert_eq!(m.architecture_type, "gguf");
    assert_eq!(m.parameters, "2B");
    assert_eq!(m.name, "bitnet b1.58 2b 4t gguf");
    assert_eq!(
        m.download_url,
        "https://huggingface.co/microsoft/BitNet-b1.58-2B-4T-gguf/resolve/main/ggml-model-i2_s.gguf"
    );
}

#[test]
fn manifest_errors() {
    let tree: Vec<TreeItem> = vec![];
    assert_eq!(
        HuggingFaceHub::build_manifest("org/repo", "model.bin", 1, None, None, &tree).err(),
        Some("Unsupported model format: bin".to_string())
    );
    assert_eq!(
        HuggingFaceHub::build_manifest("org/", "model.gguf", 1, None, None, &tree).err(),
        Some("Invalid Hugging Face repository ID".to_string())
    );
    assert_eq!(
        HuggingFaceHub::build_manifest("org/repo", "..", 1, None, None, &tree).err(),
        Some("Invalid Hugging Face filename: ..".to_string())
    );
}

#[test]
fn onnx_manifest_uses_repository_category() {
    let tree = vec![item("onnx/model_int8.onnx", 10)];
    let md = RepositoryMetadata { pipeline_tag: Some("Feature-Extraction".to_string()), tags: vec![] };
    let m = HuggingFaceHub::build_manifest("org/MiniLM", "onnx/model_int8.onnx", 10, None, Some(&md), &tree).unwrap();
    assert_eq!(m.id, "minilm:onnx:int8");
    assert_eq!(m.bit_depth_centi, 800);
    assert_eq!(m.category, "embedding");
    assert_eq!(m.architecture, "ONNX");
}

#[test]
fn onnx_runtime_files_are_added_once() {
    let mut assets = vec![ModelAsset { name: "tokenizer.json".to_string(), url: "kept".to_string() }];
    let tree = vec![
        TreeEntry { path: Some("tokenizer.json".to_string()), size: Some(10) },
        TreeEntry { path: Some("onnx/config.json".to_string()), size: Some(10) },
        TreeEntry { path: Some("vocab.txt".to_string()), size: Some(100_000_000) },
        TreeEntry { path: None, size: None },
        TreeEntry { path: Some("other/merges.txt".to_string()), size: Some(1) },
    ];
    HuggingFaceHub::append_onnx_runtime_assets("org/m", "onnx/model.onnx", &mut assets, &tree);
    let names: Vec<(String, String)> = assets.iter().map(|a| (a.name.clone(), a.url.clone())).collect();
    assert_eq!(
        names,
        vec![
            ("tokenizer.json".to_string(), "kept".to_string()),
            ("config.json".to_string(), "https://huggingface.co/org/m/resolve/main/onnx/config.json".to_string()),
        ]
    );
}

#[test]
fn listing_quantization_of_stems() {
    assert_eq!(HuggingFaceHub::gguf_quantization("llama-3-8b-Q4_K_M"), ("q4".to_string(), 400));
    assert_eq!(HuggingFaceHub::gguf_quantization("m-Q8_0"), ("q8".to_string(), 800));
    assert_eq!(HuggingFaceHub::gguf_quantization("model-ternary"), ("ternary".to_string(), 158));
    assert_eq!(HuggingFaceHub::gguf_quantization("x-f16"), ("f16".to_string(), 1600));
    assert_eq!(HuggingFaceHub::gguf_quantization("bitnet-i2_s"), ("gguf".to_string(), 400));
    assert_eq!(HuggingFaceHub::gguf_quantization("x"), ("gguf".to_string(), 400));
}

#[test]
fn manifest_requests_are_checked_before_fetching() {
    assert_eq!(
        HuggingFaceHub::validate_manifest_request("org/repo", "model.bin"),
        Err("Unsupported model format: bin".to_string())
    );
    assert_eq!(
        HuggingFaceHub::validate_manifest_request("org/", "model.gguf"),
        Err("Invalid Hugging Face repository ID".to_string())
    );
    assert_eq!(
        HuggingFaceHub::validate_manifest_request("org/repo", ".."),
        Err("Invalid Hugging Face filename: ..".to_string())
    );
    assert_eq!(HuggingFaceHub::validate_manifest_request("org/repo", "w/model-Q4_K_M.GGUF"), Ok(()));
}
