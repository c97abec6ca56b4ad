use bitshit::catalog::{
    choice_label, downloaded_model_choices,
    check_download_url, find_local_model, find_roster_model, is_onnx_model_path, is_repository_reference,
    is_valid_boot_model, listen_address, normalize_model_reference, reject_stale_manifest, resolve_port,
    selected_filename, selected_variant_size, wants_setup, weight_file_name, ModelManager, ModelRecommendation,
};
use bitshit::manifest::{HfVariant, ModelManifest};

fn manifest(id: &str, filename: &str, local_path: Option<&str>) -> ModelManifest {
    ModelManifest {
        id: id.to_string(),
        name: id.to_string(),
        architecture: String::new(),
        architecture_type: "gguf".to_string(),
        parameters: String::new(),
        training_tokens: String::new(),
        bit_depth_centi: 400,
        ram_overhead_centi_gb: 0,
        download_size_bytes: 0,
        huggingface_repo: String::new(),
        huggingface_filename: filename.to_string(),
        download_url: String::new(),
        description: String::new(),
        is_cloud_api: false,
        requires_gpu: false,
        is_free_tier: true,
        input_modality: "Text".to_string(),
        context_window: String::new(),
        family: String::new(),
        category: "chat".to_string(),
        assets: vec![],
        local_path: local_path.map(String::from),
        dna_path: None,
        has_vision: false,
        has_audio: false,
        expert_count: None,
        experts_per_token: None,
    }
}

#[test]
fn model_references_are_normalized() {
    assert_eq!(normalize_model_reference("  hf://org/repo/ "), "org/repo");
    assert_eq!(normalize_model_reference("https://huggingface.co/org/repo//"), "org/repo");
    assert_eq!(normalize_model_reference("bitnet"), "bitnet");
    assert!(is_repository_reference("org/repo"));
    assert!(!is_repository_reference("bitnet"));
}

#[test]
fn roster_lookups_ignore_case() {
    let roster = vec![manifest("a", "a.gguf", None), manifest("BitNet", "b.gguf", None)];
    assert_eq!(find_roster_model(&roster, "bitnet"), Ok(1));
    assert_eq!(
        find_roster_model(&roster, "zzz"),
        Err("Model 'zzz' is not present in the local registry. Use a Hugging Face owner/repository ID or run 'bitshit list'.".to_string())
    );
    assert_eq!(find_local_model(&roster, "A"), Ok(0));
    assert_eq!(find_local_model(&roster, "q"), Err("Model ID 'q' was not found in the local registry".to_string()));
    let remote = vec![manifest("q", "q.gguf", None)];
    assert_eq!(ModelManager::find_model(&roster, Some(&remote), "Q"), Ok((false, 0)));
    assert_eq!(ModelManager::find_model(&roster, Some(&remote), "a"), Ok((true, 0)));
    assert_eq!(
        ModelManager::find_model(&roster, None, "x"),
        Err("Model ID 'x' was not found in the registry".to_string())
    );
    let mgr = ModelManager::new("https://r".to_string(), "/m".to_string());
    assert_eq!(mgr.base_models_dir, "/m");
}

#[test]
fn variant_choices() {
    assert_eq!(selected_filename("m-Q4_K_M.gguf (4.07 GB)"), "m-Q4_K_M.gguf");
    assert_eq!(selected_filename("plain"), "plain");
    let variants = vec![
        HfVariant { filename: "a.gguf".to_string(), size_bytes: 10 },
        HfVariant { filename: "b.gguf".to_string(), size_bytes: 20 },
    ];
    assert_eq!(selected_variant_size(&variants, "b.gguf"), 20);
    assert_eq!(selected_variant_size(&variants, "c.gguf"), 0);
}

#[test]
fn stale_manifests_are_rejected() {
    assert!(reject_stale_manifest(&manifest("bitnet", "w.gguf", None)).is_ok());
    assert_eq!(
        reject_stale_manifest(&manifest("Unknown-model", "w.gguf", None)),
        Err("Refusing incomplete model manifest 'Unknown-model'. Remove the stale legacy entry and synchronize the model again.".to_string())
    );
    assert!(reject_stale_manifest(&manifest(" ", "w.gguf", None)).is_err());
    assert!(reject_stale_manifest(&manifest("m", "UNKNOWN", None)).is_err());
    assert_eq!(
        ModelManager::check_manifest(&manifest("m", "", None)),
        Err("Refusing incomplete model manifest 'm'".to_string())
    );
}

#[test]
fn boot_models_must_be_complete_and_present() {
    let ok = ModelRecommendation { manifest: manifest("m", "w.gguf", Some(" /m/w.gguf ")), is_cached: true };
    assert!(is_valid_boot_model(&ok, true));
    assert!(!is_valid_boot_model(&ok, false));
    let no_path = ModelRecommendation { manifest: manifest("m", "w.gguf", None), is_cached: true };
    assert!(!is_valid_boot_model(&no_path, true));
    let unknown = ModelRecommendation { manifest: manifest(" unknown ", "w.gguf", Some("/p")), is_cached: true };
    assert!(!is_valid_boot_model(&unknown, true));
    let uncached = ModelRecommendation { manifest: manifest("m", "w.gguf", Some("/p")), is_cached: false };
    assert!(!is_valid_boot_model(&uncached, true));
}

#[test]
fn weight_files_and_urls() {
    assert_eq!(weight_file_name("m", "dir/w.gguf"), Ok("w.gguf".to_string()));
    assert_eq!(weight_file_name("m", "unknown"), Err("Invalid model filename for m: unknown".to_string()));
    assert_eq!(weight_file_name("m", ".."), Err("Invalid model filename for m: ..".to_string()));
    assert_eq!(check_download_url("  "), Err("Model download URL is empty".to_string()));
    assert!(check_download_url("https://x").is_ok());
    assert!(is_onnx_model_path("/m/model.ONNX"));
    assert!(!is_onnx_model_path("/m/model.gguf"));
}

#[test]
fn gateway_settings() {
    assert_eq!(resolve_port(Some("9000")), 9000);
    assert_eq!(resolve_port(Some("70000")), 8000);
    assert_eq!(resolve_port(Some("x")), 8000);
    assert_eq!(resolve_port(None), 8000);
    assert_eq!(listen_address(8000), "0.0.0.0:8000");
    assert!(wants_setup(&vec!["bitshit".to_string(), "--setup".to_string()]));
    assert!(!wants_setup(&vec!["bitshit".to_string()]));
}

#[test]
fn deletion_choices_are_sorted_and_deduplicated() {
    let mut a = manifest("m1", "a.gguf", Some("/p"));
    a.name = "Beta".to_string();
    let mut b = manifest("m2", "b.gguf", None);
    b.name = "Alpha".to_string();
    let mut c = manifest("m1", "c.gguf", None);
    c.name = "Beta".to_string();
    let mut d = manifest("m3", "d.gguf", None);
    d.name = "Gamma".to_string();
    let roster = vec![a, b, c, d];
    // b and c are in the store, d is not.
    let cached = vec![false, true, true];
    assert_eq!(downloaded_model_choices(&roster, &cached), vec![1, 0]);
    assert_eq!(choice_label(&roster[1]), "Alpha [gguf]");
}

#[test]
fn boot_model_paths_are_trimmed() {
    use_boot_path();
}

fn use_boot_path() {
    let with_path = ModelRecommendation { manifest: manifest("m", "w.gguf", Some("  /m/w.gguf\n")), is_cached: true };
    assert_eq!(bitshit::catalog::boot_model_path(&with_path), "/m/w.gguf");
    let without = ModelRecommendation { manifest: manifest("m", "w.gguf", None), is_cached: true };
    assert_eq!(bitshit::catalog::boot_model_path(&without), "");
}

#[test]
fn boot_model_selection() {
    let models = vec![
        ModelRecommendation { manifest: manifest("stale", "unknown", Some("/p0")), is_cached: true },
        ModelRecommendation { manifest: manifest("a", "a.gguf", Some("/p1")), is_cached: true },
        ModelRecommendation { manifest: manifest("b", "b.gguf", Some("/p2")), is_cached: true },
    ];
    assert_eq!(bitshit::catalog::select_boot_model(&models, &vec![true, true, true], None), Some(1));
    assert_eq!(bitshit::catalog::select_boot_model(&models, &vec![true, false, true], None), Some(2));
    assert_eq!(bitshit::catalog::select_boot_model(&models, &vec![true, true, true], Some("b")), Some(2));
    assert_eq!(bitshit::catalog::select_boot_model(&models, &vec![true, true, false], Some("b")), None);
    assert_eq!(bitshit::catalog::select_boot_model(&models, &vec![], None), None);
}
