use bitshit::environment::{ConfigMigration, EnvironmentManager, EnvironmentMode, EnvironmentProbe};

fn probe() -> EnvironmentProbe {
    EnvironmentProbe {
        executable: Some("/usr/bin/bitshit".to_string()),
        executable_dir: Some("/usr/bin".to_string()),
        portable_flag: false,
        home_override: None,
        current_dir: "/work".to_string(),
        cargo_env: false,
        home_dir: "/home/ada".to_string(),
        models_dir_override: None,
    }
}

#[test]
fn installed_tree_lives_in_home() {
    let env = EnvironmentManager::resolve(probe());
    assert_eq!(env.mode, EnvironmentMode::Installed);
    assert_eq!(env.local_dir, "/home/ada/.1bitshit");
    assert_eq!(env.global_dir, "/home/ada/.1bitshit");
    assert_eq!(EnvironmentManager::installed_root("/home/ada"), "/home/ada/.1bitshit");
}

#[test]
fn portable_flag_wins() {
    let mut p = probe();
    p.portable_flag = true;
    p.home_override = Some("/opt/bs".to_string());
    let env = EnvironmentManager::resolve(p);
    assert_eq!(env.mode, EnvironmentMode::Portable);
    assert_eq!(env.local_dir, "/usr/bin");
}

#[test]
fn explicit_home_beats_workspace() {
    let mut p = probe();
    p.home_override = Some("/opt/bs".to_string());
    p.cargo_env = true;
    let env = EnvironmentManager::resolve(p);
    assert_eq!(env.mode, EnvironmentMode::Installed);
    assert_eq!(env.global_dir, "/opt/bs");
}

#[test]
fn workspace_binaries_run_in_development_mode() {
    let mut p = probe();
    p.executable = Some("/work/target/debug/bitshit".to_string());
    let env = EnvironmentManager::resolve(p);
    assert_eq!(env.mode, EnvironmentMode::Development);
    assert_eq!(env.local_dir, "/work/.1bitshit");
    assert_eq!(env.global_dir, "/work");
    assert!(EnvironmentManager::is_local_workspace_binary("/work", &None, true));
    assert!(!EnvironmentManager::is_local_workspace_binary("/work", &Some("/work/targets/x".to_string()), false));
}

#[test]
fn directories_of_the_tree() {
    let env = EnvironmentManager {
        mode: EnvironmentMode::Installed,
        local_dir: "/l".to_string(),
        global_dir: "/g".to_string(),
        models_dir_override: None,
    };
    assert_eq!(env.engine_dir(), "/l/engine");
    assert_eq!(env.kernel_dir(), "/l/engine");
    assert_eq!(env.drivers_dir(), "/l/engine/drivers");
    assert_eq!(env.config_dir(), "/l/engine/config");
    assert_eq!(env.models_dir(), "/g/models");
    assert_eq!(env.chat_models_dir(), "/g/models/chat");
    assert_eq!(env.embedding_models_dir(), "/g/models/embedding");
    assert_eq!(env.vision_models_dir(), "/g/models/vision");
    assert_eq!(env.kv_cache_dir(), "/l/kv_cache");
    assert_eq!(env.skills_dir(), "/g/skills");
    assert_eq!(env.extensions_dir(), "/g/extensions");
    assert_eq!(env.plugins_dir(), "/g/plugins");
    assert_eq!(env.mcp_dir(), "/g/mcp");
    assert_eq!(env.reports_dir(), "/l/reports");
}

#[test]
fn models_directory_override() {
    let env = EnvironmentManager {
        mode: EnvironmentMode::Development,
        local_dir: "/l".to_string(),
        global_dir: "/g".to_string(),
        models_dir_override: Some("/data/models".to_string()),
    };
    assert_eq!(env.models_dir(), "/data/models");
    assert_eq!(env.chat_models_dir(), "/data/models/chat");
}

#[test]
fn legacy_configuration_is_moved_or_discarded() {
    let env = EnvironmentManager {
        mode: EnvironmentMode::Installed,
        local_dir: "/l".to_string(),
        global_dir: "/g".to_string(),
        models_dir_override: None,
    };
    assert_eq!(EnvironmentManager::legacy_config_files().len(), 6);
    let present = vec![(true, false), (false, false), (true, true)];
    let plan = env.config_migration_plan(&present);
    assert_eq!(plan.len(), 2);
    match &plan[0] {
        ConfigMigration::Move { from, to } => {
            assert_eq!(from, "/l/engine/Permission.json");
            assert_eq!(to, "/l/engine/config/Permission.json");
        }
        _ => panic!("expected a move"),
    }
    match &plan[1] {
        ConfigMigration::Discard { from } => assert_eq!(from, "/l/engine/system_control.json"),
        _ => panic!("expected a discard"),
    }
}
