use bitshit::dispatch::{
    chat_weight_extensions, configured_model_id, directory_matches, find_weight_in_listing, library_extension,
    library_names, library_search_paths, missing_model_message, model_search_dirs, needs_reload,
    no_chat_model_message, resolve_library,
};
use bitshit::kernel_loader::HostOs;
use bitshit::model_store::DirEntryInfo;

#[test]
fn library_names_per_host() {
    assert_eq!(library_extension(HostOs::MacOs), "dylib");
    assert_eq!(
        library_names("llama", HostOs::Windows),
        vec!["bitshit-llama.dll", "bitshit_llama.dll", "cluaiz-llama.dll", "cluaiz_llama.dll"]
    );
    let unix = library_names("onnx", HostOs::Linux);
    assert_eq!(unix.len(), 6);
    assert_eq!(unix[1], "libbitshit_onnx.so");
    assert_eq!(unix[5], "libcluaiz-onnx.so");
}

#[test]
fn library_resolution() {
    let paths = library_search_paths("llama", HostOs::Linux, "/ws", "/rt/engine");
    assert_eq!(paths.len(), 36);
    assert_eq!(paths[24], "/rt/engine/bitshit-llama.so");
    let mut found = vec![false; 36];
    found[25] = true;
    assert_eq!(
        resolve_library("llama", HostOs::Linux, "/ws", "/rt/engine", &found),
        Ok("/rt/engine/drivers/bitshit-llama.so".to_string())
    );
    assert_eq!(
        resolve_library("llama", HostOs::Linux, "/ws", "/rt/engine", &vec![]),
        Err("1BitShit CPU llama library was not found under /rt/engine or target/{release,debug}".to_string())
    );
}

#[test]
fn model_directories_and_weights() {
    let dirs = model_search_dirs("/m", "org/My Model");
    assert_eq!(dirs.len(), 6);
    assert_eq!(dirs[0], "/m/chat/My-Model");
    assert_eq!(dirs[5], "/m/multimodal/My-Model");
    let listing = vec![
        DirEntryInfo { name: "readme.md".to_string(), is_file: true },
        DirEntryInfo { name: "w.BIN".to_string(), is_file: true },
    ];
    let accepted = chat_weight_extensions();
    assert_eq!(find_weight_in_listing("/m/chat/x", &listing, &accepted), Some("/m/chat/x/w.BIN".to_string()));
    let onnx = vec!["onnx".to_string()];
    assert_eq!(find_weight_in_listing("/m/chat/x", &listing, &onnx), None);
    assert!(directory_matches("ORG-My-Model", "org-my-model"));
}

#[test]
fn configured_models() {
    let config = "{\"chat_models\": {\"text\": \"bitnet:gguf:i2_s\"}, \"vector_models\": {\"text\": 7}}";
    assert_eq!(configured_model_id(Some(config), "chat_models"), Some("bitnet:gguf:i2_s".to_string()));
    assert_eq!(configured_model_id(Some(config), "vector_models"), None);
    assert_eq!(configured_model_id(Some(config), "embedding_models"), None);
    assert_eq!(configured_model_id(Some("not json"), "chat_models"), None);
    assert_eq!(configured_model_id(None, "chat_models"), None);
}

#[test]
fn stream_messages_and_reload() {
    assert_eq!(
        no_chat_model_message(),
        "Error: no active chat model is configured. Use 'bitshit model set-chat <id>'."
    );
    assert_eq!(
        missing_model_message("m"),
        "Error: active model 'm' was not found in the visible model store."
    );
    assert!(needs_reload(None, true, "/m/a.gguf"));
    assert!(!needs_reload(Some("/m//a.gguf"), true, "/m/a.gguf"));
    assert!(needs_reload(Some("/m/a.gguf"), false, "/m/a.gguf"));
    assert!(needs_reload(Some("/m/b.gguf"), true, "/m/a.gguf"));
}

#[test]
fn chat_weights_never_pick_onnx_files() {
    let listing = vec![
        DirEntryInfo { name: "model.onnx".to_string(), is_file: true },
        DirEntryInfo { name: "model.ONNX".to_string(), is_file: true },
    ];
    assert_eq!(find_weight_in_listing("/m/chat/x", &listing, &chat_weight_extensions()), None);
}

#[test]
fn configured_model_ignores_array_elements() {
    assert_eq!(configured_model_id(Some("[{\"text\": \"x\"}]"), "0"), None);
    assert_eq!(configured_model_id(Some("{\"0\": {\"text\": \"x\"}}"), "0"), Some("x".to_string()));
}
