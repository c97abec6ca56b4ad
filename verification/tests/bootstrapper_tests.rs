use bitshit::bootstrapper::{Bootstrapper, ComponentInfo, PlatformManifest, Registry, SyncDecision};
use bitshit::kernel_loader::HostOs;

fn component(version: Option<&str>, url: Option<&str>) -> ComponentInfo {
    ComponentInfo { present: true, version: version.map(String::from), manifest_url: url.map(String::from) }
}

fn registry() -> Registry {
    Registry {
        name: Some("1bitshit-cpu".to_string()),
        cli: component(Some("0.3.0"), None),
        engine: component(Some("1.0"), Some("https://e")),
        kernel: component(Some("2.0"), None),
        drivers_manifest_url: None,
    }
}

#[test]
fn version_comparison() {
    assert!(Bootstrapper::is_newer_version("v1.10.0", "1.9.9"));
    assert!(!Bootstrapper::is_newer_version("1.2", "1.2.0"));
    assert!(Bootstrapper::is_newer_version("1.2.0", "1.2"));
    assert!(Bootstrapper::is_newer_version("1.2.0-beta", "1.1"));
    assert!(Bootstrapper::is_newer_version(" v2.0 ", "1.9"));
    assert!(!Bootstrapper::is_newer_version("abc", "1.0"));
    assert!(!Bootstrapper::is_newer_version("1..2", "1.0"));
    assert!(!Bootstrapper::is_newer_version("0.2.0", "0.2.0-dev"));
}

#[test]
fn version_order_laws_on_examples() {
    let versions = ["0.1", "0.2.0", "v0.10", "1.0.0-rc1", "1", "x"];
    for a in versions {
        assert!(!Bootstrapper::is_newer_version(a, a));
        for b in versions {
            assert!(!(Bootstrapper::is_newer_version(a, b) && Bootstrapper::is_newer_version(b, a)));
            for c in versions {
                if Bootstrapper::is_newer_version(a, b) && Bootstrapper::is_newer_version(b, c) {
                    assert!(Bootstrapper::is_newer_version(a, c));
                }
            }
        }
    }
}

#[test]
fn platform_keys() {
    assert_eq!(Bootstrapper::platform_key(HostOs::Windows), "win-x64");
    assert_eq!(Bootstrapper::platform_key(HostOs::MacOs), "mac-arm64");
    assert_eq!(Bootstrapper::platform_key(HostOs::Android), "linux-x64");
    assert_eq!(Bootstrapper::dynamic_library_extension(HostOs::Linux), "so");
    let features = vec!["sse4.2".to_string(), "avx-512".to_string()];
    assert_eq!(Bootstrapper::specialized_platform_key("linux-x64", Some(&features)), "linux-x64-avx512");
    assert_eq!(Bootstrapper::specialized_platform_key("win-x64", None), "win-x64-avx2");
    assert_eq!(Bootstrapper::specialized_platform_key("mac-arm64", Some(&features)), "mac-arm64");
}

#[test]
fn registry_identity_and_offline_switch() {
    assert!(Bootstrapper::is_bitshit_registry(&registry()));
    let mut other = registry();
    other.name = Some("cluaiz".to_string());
    assert!(!Bootstrapper::is_bitshit_registry(&other));
    let mut partial = registry();
    partial.kernel.version = None;
    assert!(!Bootstrapper::is_bitshit_registry(&partial));
    assert!(Bootstrapper::is_offline(Some("TRUE")));
    assert!(Bootstrapper::is_offline(Some("yes")));
    assert!(!Bootstrapper::is_offline(Some("0")));
    assert!(!Bootstrapper::is_offline(None));
}

#[test]
fn update_notice_names_the_newer_release() {
    assert_eq!(Bootstrapper::update_notice(&registry(), "0.2.0"), Some("0.3.0".to_string()));
    assert_eq!(Bootstrapper::update_notice(&registry(), "0.3.0"), None);
}

#[test]
fn engine_sync_decisions() {
    let r = registry();
    assert!(matches!(Bootstrapper::engine_sync_decision(&r, true, "1.0\n"), SyncDecision::Keep));
    match Bootstrapper::engine_sync_decision(&r, true, "0.9") {
        SyncDecision::Fetch { manifest_url, version } => {
            assert_eq!(manifest_url, "https://e");
            assert_eq!(version, "1.0");
        }
        _ => panic!("expected a fetch"),
    }
    let mut no_url = registry();
    no_url.engine.manifest_url = None;
    match Bootstrapper::engine_sync_decision(&no_url, false, "") {
        SyncDecision::Fail(e) => assert_eq!(e, "Engine manifest URL is missing"),
        _ => panic!("expected a failure"),
    }
    assert!(matches!(Bootstrapper::engine_sync_decision(&no_url, true, ""), SyncDecision::Keep));
    let mut absent = registry();
    absent.engine.present = false;
    assert!(matches!(Bootstrapper::engine_sync_decision(&absent, false, ""), SyncDecision::Keep));
}

#[test]
fn kernel_sync_decisions() {
    let r = registry();
    assert!(matches!(Bootstrapper::kernel_sync_decision(&r, false, ""), SyncDecision::Keep));
    let mut with_url = registry();
    with_url.kernel.manifest_url = Some("https://k".to_string());
    with_url.kernel.version = None;
    match Bootstrapper::kernel_sync_decision(&with_url, true, "2.0") {
        SyncDecision::Fetch { manifest_url, version } => {
            assert_eq!(manifest_url, "https://k");
            assert_eq!(version, "unknown");
        }
        _ => panic!("expected a fetch"),
    }
}

#[test]
fn platform_manifest_lookups() {
    let m = PlatformManifest {
        entries: vec![
            ("linux-x64".to_string(), "https://plain".to_string()),
            ("linux-x64-avx512".to_string(), "https://fast".to_string()),
        ],
    };
    assert_eq!(m.engine_url("linux-x64"), Ok("https://plain".to_string()));
    assert_eq!(m.engine_url("win-x64"), Err("No engine binary for 'win-x64'".to_string()));
    assert_eq!(m.kernel_url("linux-x64-avx512", "linux-x64"), Ok("https://fast".to_string()));
    assert_eq!(m.kernel_url("linux-x64-avx2", "linux-x64"), Ok("https://plain".to_string()));
    assert_eq!(m.kernel_url("win-x64-avx2", "win-x64"), Err("No Llama kernel for 'win-x64-avx2'".to_string()));
}
