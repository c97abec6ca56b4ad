use bitshit::kernel_loader::{HostOs, KernelLoader, KernelSearch};

fn search(host: HostOs, found: Vec<bool>) -> KernelSearch {
    KernelSearch { host, current_dir: Some("/ws".to_string()), engine_dir: "/rt/engine".to_string(), is_file: found }
}

#[test]
fn candidate_names_in_search_order() {
    let names = KernelLoader::candidate_names("llama", "so");
    assert_eq!(names.len(), 11);
    assert_eq!(names[0], "bitshit-llama.so");
    assert_eq!(names[2], "libbitshit_llama.so");
    assert_eq!(names[4], "cluaiz-llama.so");
    assert_eq!(names[10], "libarcher_llama.so");
}

#[test]
fn primary_name_depends_on_host() {
    assert_eq!(KernelLoader::primary_name("llama", "so", HostOs::Linux), "libbitshit_llama.so");
    assert_eq!(KernelLoader::primary_name("llama", "dll", HostOs::Windows), "bitshit-llama.dll");
}

#[test]
fn probe_paths_cover_builds_then_engine() {
    let loader = KernelLoader::new("/base".to_string());
    let paths = loader.probe_paths("llama", "Linux", &Some("/ws".to_string()), "/rt/engine");
    assert_eq!(paths.len(), 66);
    assert_eq!(paths[0], "/ws/target/release/bitshit-llama.so");
    assert_eq!(paths[1], "/ws/target/release/deps/bitshit-llama.so");
    assert_eq!(paths[22], "/ws/target/debug/bitshit-llama.so");
    assert_eq!(paths[44], "/rt/engine/bitshit-llama.so");
    assert_eq!(paths[45], "/rt/engine/drivers/bitshit-llama.so");
    let no_cwd = loader.probe_paths("onnx", "Windows", &None, "/rt/engine");
    assert_eq!(no_cwd[0], "/base/target/release/bitshit-onnx.dll");
}

#[test]
fn resolution_takes_the_first_existing_file() {
    let loader = KernelLoader::new("/base".to_string());
    let mut found = vec![false; 66];
    found[47] = true;
    found[50] = true;
    let s = search(HostOs::Linux, found);
    assert_eq!(loader.resolve_path_for_os("llama", "Linux", &s), "/rt/engine/drivers/bitshit_llama.so");
    assert!(loader.exists_for_os("llama", "Linux", &s));
    assert_eq!(loader.resolve_path("llama", &s), "/rt/engine/drivers/bitshit_llama.so");
    assert!(loader.exists_on_host("llama", &s));
}

#[test]
fn missing_kernels_fall_back_to_the_installed_name() {
    let loader = KernelLoader::new("/base".to_string());
    let s = search(HostOs::Linux, vec![]);
    assert_eq!(loader.resolve_path_for_os("llama", "Linux", &s), "/rt/engine/libbitshit_llama.so");
    assert!(!loader.exists_for_os("llama", "Linux", &s));
    let w = search(HostOs::Windows, vec![false; 66]);
    assert_eq!(loader.resolve_path("onnx", &w), "/rt/engine/bitshit-onnx.dll");
    assert_eq!(loader.resolve_path_for_os("onnx", "Plan9", &w), "/rt/engine/bitshit-onnx.bin");
}

#[test]
fn the_fallback_is_itself_searched() {
    let loader = KernelLoader::new("/base".to_string());
    let paths = loader.probe_paths("llama", "macOS", &Some("/ws".to_string()), "/rt/engine");
    let s = search(HostOs::MacOs, vec![]);
    let fallback = loader.resolve_path_for_os("llama", "macOS", &s);
    assert!(paths.contains(&fallback));
}
