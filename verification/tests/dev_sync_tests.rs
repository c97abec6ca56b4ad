use bitshit::dev_sync::{legacy_import_plan, sync_dev_artifacts, tree_copy_plan, DevSyncAction, DevSyncProbe};
use bitshit::environment::{EnvironmentManager, EnvironmentMode};
use bitshit::kernel_loader::HostOs;

fn describe(actions: &[DevSyncAction]) -> Vec<String> {
    actions
        .iter()
        .map(|a| match a {
            DevSyncAction::CopyArtifact { from, to } => format!("copy {from} -> {to}"),
            DevSyncAction::WriteMarker { path, contents } => format!("mark {path} = {contents}"),
            DevSyncAction::CopyTree { from, to } => format!("tree {from} -> {to}"),
        })
        .collect()
}

fn workspace() -> DevSyncProbe {
    DevSyncProbe {
        root: "/ws".to_string(),
        files: vec![
            "/ws/target/release/libengines.so".to_string(),
            "/ws/target/release/deps/libbitshit_llama.so".to_string(),
            "/ws/target/release/libonnxruntime_providers_cuda.so".to_string(),
            "/ws/target/release/bitshit".to_string(),
        ],
        dirs: vec!["/ws/.1bitshit".to_string(), "/ws/.1bitshit/skills".to_string(), "/ws/.cluaiz".to_string()],
        runtime_exists: true,
        legacy_runtime_exists: true,
    }
}

#[test]
fn full_sync_plan() {
    let plan = sync_dev_artifacts("all", None, "/hub", "release", HostOs::Linux, "0.2.0", &workspace());
    assert_eq!(
        describe(&plan),
        vec![
            "copy /ws/target/release/libengines.so -> /hub/engine/bitshit-engine.so",
            "mark /hub/engine/bitshit-engine.ready = 0.2.0",
            "copy /ws/target/release/deps/libbitshit_llama.so -> /hub/engine/bitshit-llama.so",
            "mark /hub/engine/bitshit-llama.ready = 0.2.0",
            "copy /ws/target/release/libonnxruntime_providers_cuda.so -> /hub/engine/drivers/onnxruntime_providers_cuda.so",
            "copy /ws/target/release/bitshit -> /hub/bin/bitshit",
            "tree /ws/.1bitshit/skills -> /hub/skills",
        ]
    );
}

#[test]
fn driver_sync_only_takes_matching_libraries() {
    let plan = sync_dev_artifacts("driver", Some("cuda"), "/hub", "release", HostOs::Linux, "0.2.0", &workspace());
    assert_eq!(
        describe(&plan),
        vec!["copy /ws/target/release/libonnxruntime_providers_cuda.so -> /hub/engine/drivers/onnxruntime_providers_cuda.so"]
    );
}

#[test]
fn core_sync_skips_libraries_and_debug_builds_elsewhere() {
    let plan = sync_dev_artifacts("core", None, "/hub", "release", HostOs::Linux, "1", &workspace());
    assert_eq!(plan.len(), 4);
    let debug = sync_dev_artifacts("all", None, "/hub", "dev", HostOs::Linux, "1", &workspace());
    assert_eq!(describe(&debug), vec!["tree /ws/.1bitshit/skills -> /hub/skills"]);
}

#[test]
fn legacy_runtime_data_is_used_without_a_new_tree() {
    let probe = DevSyncProbe {
        root: "/ws".to_string(),
        files: vec![],
        dirs: vec!["/ws/.cluaiz".to_string(), "/ws/.cluaiz/brain".to_string(), "/ws/.cluaiz/mcp".to_string()],
        runtime_exists: false,
        legacy_runtime_exists: true,
    };
    let plan = sync_dev_artifacts("all", None, "/hub", "release", HostOs::Windows, "1", &probe);
    assert_eq!(describe(&plan), vec!["tree /ws/.cluaiz/brain -> /hub/brain", "tree /ws/.cluaiz/mcp -> /hub/mcp"]);
}

#[test]
fn legacy_runtime_is_not_read_when_the_new_tree_is_a_file() {
    let probe = DevSyncProbe {
        root: "/ws".to_string(),
        files: vec!["/ws/.1bitshit".to_string()],
        dirs: vec!["/ws/.cluaiz".to_string(), "/ws/.cluaiz/brain".to_string()],
        runtime_exists: true,
        legacy_runtime_exists: true,
    };
    let plan = sync_dev_artifacts("all", None, "/hub", "release", HostOs::Linux, "1", &probe);
    assert!(plan.is_empty());
}

#[test]
fn nothing_is_copied_without_a_runtime_tree() {
    let probe = DevSyncProbe {
        root: "/ws".to_string(),
        files: vec![],
        dirs: vec!["/ws/.cluaiz/brain".to_string()],
        runtime_exists: false,
        legacy_runtime_exists: false,
    };
    let plan = sync_dev_artifacts("all", None, "/hub", "release", HostOs::Linux, "1", &probe);
    assert!(plan.is_empty());
}

fn installed(global: &str) -> EnvironmentManager {
    EnvironmentManager {
        mode: EnvironmentMode::Installed,
        local_dir: global.to_string(),
        global_dir: global.to_string(),
        models_dir_override: None,
    }
}

#[test]
fn legacy_import_copies_existing_folders() {
    let existing = vec!["/home/a/.cluaiz/models".to_string(), "/home/a/.cluaiz/reports".to_string()];
    let plan = legacy_import_plan(&installed("/home/a/.1bitshit"), Some("/home/a"), true, false, &existing).unwrap();
    assert_eq!(plan.destination, "/home/a/.1bitshit");
    assert_eq!(plan.marker, "/home/a/.1bitshit/.legacy-cluaiz-import-complete");
    assert_eq!(
        describe(&plan.copies),
        vec![
            "tree /home/a/.cluaiz/models -> /home/a/.1bitshit/models",
            "tree /home/a/.cluaiz/reports -> /home/a/.1bitshit/reports",
        ]
    );
    assert!(plan.marker_text.starts_with("Legacy data imported by 1BitShit CPU."));
}

#[test]
fn legacy_import_is_skipped() {
    let none: Vec<String> = vec![];
    assert!(legacy_import_plan(&installed("/g"), Some("/home/a"), true, true, &none).is_none());
    assert!(legacy_import_plan(&installed("/g"), Some("/home/a"), false, false, &none).is_none());
    assert!(legacy_import_plan(&installed("/home/a/.cluaiz/"), Some("/home/a"), true, false, &none).is_none());
    assert!(legacy_import_plan(&installed("/g"), None, true, false, &none).is_none());
    let mut dev = installed("/g");
    dev.mode = EnvironmentMode::Development;
    assert!(legacy_import_plan(&dev, Some("/home/a"), true, false, &none).is_none());
}

#[test]
fn tree_copy_keeps_existing_files() {
    let files = vec!["a.txt".to_string(), "sub/b.txt".to_string(), "c.txt".to_string()];
    let existing = vec!["c.txt".to_string()];
    let plan = tree_copy_plan("/src", "/dst", &files, &existing);
    assert_eq!(
        plan,
        vec![
            ("/src/a.txt".to_string(), "/dst/a.txt".to_string()),
            ("/src/sub/b.txt".to_string(), "/dst/sub/b.txt".to_string()),
        ]
    );
    let mut after = existing.clone();
    after.extend(vec!["a.txt".to_string(), "sub/b.txt".to_string()]);
    assert!(tree_copy_plan("/src", "/dst", &files, &after).is_empty());
}
