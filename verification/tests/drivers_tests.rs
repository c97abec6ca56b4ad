use bitshit::drivers::{dynamic_library_extension, DriverProvisioner, DriverRegistry};
use bitshit::kernel_loader::HostOs;

#[test]
fn registry_keys() {
    assert_eq!(DriverProvisioner::get_registry_key("cuda", HostOs::Linux), "linux-x64-cuda-12");
    assert_eq!(DriverProvisioner::get_registry_key("vulkan", HostOs::Windows), "win-x64-vulkan");
    assert_eq!(DriverProvisioner::get_registry_key("hip", HostOs::Android), "android-arm64-hip");
    assert_eq!(DriverProvisioner::get_registry_key("metal", HostOs::MacOs), "mac-arm64-metal");
    assert_eq!(DriverProvisioner::get_registry_key("npu", HostOs::Ios), "linux-x64-npu");
}

#[test]
fn library_extensions() {
    assert_eq!(dynamic_library_extension(HostOs::Windows), "dll");
    assert_eq!(dynamic_library_extension(HostOs::MacOs), "dylib");
    assert_eq!(dynamic_library_extension(HostOs::Ios), "so");
}

#[test]
fn artifact_paths() {
    assert_eq!(DriverProvisioner::get_driver_path("/rt/engine"), "/rt/engine/drivers");
    assert_eq!(
        DriverProvisioner::kernel_artifacts("/k", "llama", HostOs::Linux),
        ("/k/bitshit-llama.ready".to_string(), "/k/bitshit-llama.so".to_string())
    );
    assert_eq!(DriverProvisioner::driver_marker("/d", "cuda"), "/d/bitshit-cuda.ready");
    assert_eq!(DriverProvisioner::partial_path("a/b.so", "download"), "a/b.so.part");
    assert_eq!(DriverProvisioner::partial_path("a/b", "download"), "a/b.download.part");
}

#[test]
fn registry_text_drops_comment_lines() {
    let text = "// header\n{\"version\": \"1\"}\r\n   // note\n}\n";
    assert_eq!(DriverProvisioner::normalize_registry_text(text), "{\"version\": \"1\"}\n}");
    assert_eq!(DriverProvisioner::normalize_registry_text(""), "");
    assert_eq!(DriverProvisioner::normalize_registry_text("a\r"), "a\r");
    assert_eq!(DriverProvisioner::normalize_registry_text("a\n\nb"), "a\n\nb");
}

#[test]
fn driver_file_names() {
    assert_eq!(DriverProvisioner::driver_file_name("https://x/y/drv.zip"), "drv.zip");
    assert_eq!(DriverProvisioner::driver_file_name("https://x/y/"), "driver.bin");
    assert!(DriverProvisioner::is_archive("drv.zip"));
    assert!(!DriverProvisioner::is_archive("drv.so"));
}

#[test]
fn local_kernels_over_30_mib_are_kept() {
    assert!(DriverProvisioner::preserves_local_kernel(Some(31 * 1_048_576)));
    assert!(!DriverProvisioner::preserves_local_kernel(Some(30 * 1_048_576 + 5)));
    assert!(!DriverProvisioner::preserves_local_kernel(None));
}

#[test]
fn markers_record_the_version() {
    assert!(DriverProvisioner::marker_is_current(Some(" 1.2 \n"), "1.2"));
    assert!(!DriverProvisioner::marker_is_current(Some("1.1"), "1.2"));
    assert!(!DriverProvisioner::marker_is_current(None, ""));
}

#[test]
fn registry_lookups() {
    let text = "// published registry\n{\"kernel\": {\"llama\": {\"linux-x64-cuda-12\": \"https://k\"}},\n \"drivers\": {\"linux-x64-cuda-12\": \"https://d/cuda.zip\", \"a/b\": \"https://slash\"}}\n";
    let reg = DriverRegistry::parse(text).unwrap();
    assert_eq!(reg.manifest_version(), "unknown");
    assert_eq!(reg.kernel_download_url("llama", "linux-x64-cuda-12"), Ok("https://k".to_string()));
    assert_eq!(
        reg.kernel_download_url("onnx", "linux-x64-cuda-12"),
        Err("Kernel 'onnx' for registry key 'linux-x64-cuda-12' was not found".to_string())
    );
    assert_eq!(reg.driver_download_url("linux-x64-cuda-12"), Ok("https://d/cuda.zip".to_string()));
    assert_eq!(reg.driver_download_url("a/b"), Ok("https://slash".to_string()));
    assert_eq!(reg.driver_download_url("win-x64-cuda-12"), Err("Driver key 'win-x64-cuda-12' was not found".to_string()));
    let versioned = DriverRegistry::parse("{\"version\": \"2.1\", \"kernel\": 3}").unwrap();
    assert_eq!(versioned.manifest_version(), "2.1");
    assert!(versioned.kernel_download_url("llama", "x").is_err());
    assert!(DriverRegistry::parse("{ not json").is_err());
}

#[test]
fn registry_members_are_not_array_elements() {
    let reg = DriverRegistry::parse("{\"kernel\": {\"llama\": [\"https://a\"]}, \"drivers\": [\"https://b\"]}").unwrap();
    assert_eq!(
        reg.kernel_download_url("llama", "0"),
        Err("Kernel 'llama' for registry key '0' was not found".to_string())
    );
    assert_eq!(reg.driver_download_url("0"), Err("Driver key '0' was not found".to_string()));
    let keyed = DriverRegistry::parse("{\"drivers\": {\"0\": \"https://c\", \"a/b\": \"https://d\"}}").unwrap();
    assert_eq!(keyed.driver_download_url("0"), Ok("https://c".to_string()));
    assert_eq!(keyed.driver_download_url("a/b"), Ok("https://d".to_string()));
}
