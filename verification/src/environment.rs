//! The runtime environment: which directory tree is active (portable,
//! installed, development) and where each kind of data lives inside it.
use vstd::prelude::*;
use crate::paths::{components, components_exec, is_prefix_components, is_prefix_components_exec, join, join_exec, join_str};
use crate::text::{chars_of, string_of, views};

verus! {

/// How the runtime was located.
#[derive(Debug, Clone, Copy, PartialEq, Eq, Structural)]
pub enum EnvironmentMode {
    Development,
    Installed,
    Portable,
    Testing,
}

/// The active directory tree. `local_dir` holds the engine, caches and
/// reports; `global_dir` holds models, skills and extensions.
/// `models_dir_override` is the value of `BITSHIT_MODELS_DIR`, if set.
#[derive(Debug, Clone)]
pub struct EnvironmentManager {
    pub mode: EnvironmentMode,
    pub local_dir: String,
    pub global_dir: String,
    pub models_dir_override: Option<String>,
}

/// What the process can observe about where it runs.
pub struct EnvironmentProbe {
    /// Path of the running executable, if known.
    pub executable: Option<String>,
    /// Directory of the running executable, if it has one.
    pub executable_dir: Option<String>,
    /// Whether `portable.flag` exists next to the executable.
    pub portable_flag: bool,
    /// `BITSHIT_HOME`, or else `BITSHIT_ROOT`, if set.
    pub home_override: Option<String>,
    /// The working directory (`.` when it cannot be read).
    pub current_dir: String,
    /// Whether `CARGO` or `CARGO_MANIFEST_DIR` is set.
    pub cargo_env: bool,
    /// The user's home directory (`.` when unknown).
    pub home_dir: String,
    /// `BITSHIT_MODELS_DIR`, if set.
    pub models_dir_override: Option<String>,
}

/// The installed runtime root below a home directory.
pub open spec fn installed_root(home: Seq<char>) -> Seq<char> {
    join(home, ".1bitshit"@)
}

/// A binary built in the workspace: it lies below `<current dir>/target`, or
/// it runs under cargo.
pub open spec fn is_workspace_binary(
    current_dir: Seq<char>,
    executable: Option<Seq<char>>,
    cargo_env: bool,
) -> bool {
    (match executable {
        Some(e) => is_prefix_components(components(join(current_dir, "target"@)), components(e)),
        None => false,
    }) || cargo_env
}

pub open spec fn opt_string_view(o: Option<String>) -> Option<Seq<char>> {
    match o {
        Some(s) => Some(s@),
        None => None,
    }
}

/// The environment chosen for a probe: a portable tree next to the
/// executable, then an explicit home, then the development workspace, then
/// the installed tree in the home directory.
pub open spec fn resolved_environment(p: EnvironmentProbe) -> (EnvironmentMode, Seq<char>, Seq<char>) {
    if p.portable_flag && p.executable_dir is Some {
        let d = p.executable_dir->0@;
        (EnvironmentMode::Portable, d, d)
    } else if p.home_override is Some {
        let r = p.home_override->0@;
        (EnvironmentMode::Installed, r, r)
    } else if is_workspace_binary(p.current_dir@, opt_string_view(p.executable), p.cargo_env) {
        (EnvironmentMode::Development, join(p.current_dir@, ".1bitshit"@), p.current_dir@)
    } else {
        let g = installed_root(p.home_dir@);
        (EnvironmentMode::Installed, g, g)
    }
}

pub open spec fn spec_engine_dir(local: Seq<char>) -> Seq<char> {
    join(local, "engine"@)
}

pub open spec fn spec_models_dir(global: Seq<char>, over: Option<Seq<char>>) -> Seq<char> {
    match over {
        Some(p) => p,
        None => join(global, "models"@),
    }
}

/// The configuration files that older releases kept in the engine directory.
pub open spec fn legacy_config_files() -> Seq<Seq<char>> {
    seq![
        "Permission.json"@,
        "Permission.bin"@,
        "system_control.json"@,
        "system_control.bin"@,
        "package.json"@,
        "package.bin"@,
    ]
}

/// One step of moving legacy configuration into the config directory.
pub enum ConfigMigration {
    /// Copy `from` to `to`, then delete `from` once the copy succeeded.
    Move { from: String, to: String },
    /// Delete `from`: the config directory already holds the file.
    Discard { from: String },
}

impl View for ConfigMigration {
    type V = (Seq<char>, Option<Seq<char>>);

    open spec fn view(&self) -> (Seq<char>, Option<Seq<char>>) {
        match self {
            ConfigMigration::Move { from, to } => (from@, Some(to@)),
            ConfigMigration::Discard { from } => (from@, None),
        }
    }
}

/// The step for legacy file `name`, given whether it exists in the engine
/// directory and whether it already exists in the config directory.
pub open spec fn migration_step(
    engine: Seq<char>,
    config: Seq<char>,
    name: Seq<char>,
    legacy_exists: bool,
    migrated_exists: bool,
) -> Option<(Seq<char>, Option<Seq<char>>)> {
    if !legacy_exists {
        None
    } else if !migrated_exists {
        Some((join(engine, name), Some(join(config, name))))
    } else {
        Some((join(engine, name), None))
    }
}

/// What is observed of file `i`: missing observations count as absent.
pub open spec fn observed(present: Seq<(bool, bool)>, i: int) -> (bool, bool) {
    if 0 <= i < present.len() {
        present[i]
    } else {
        (false, false)
    }
}

/// The migration steps for the first `n` legacy files, in order.
pub open spec fn migration_plan(
    engine: Seq<char>,
    config: Seq<char>,
    present: Seq<(bool, bool)>,
    n: nat,
) -> Seq<(Seq<char>, Option<Seq<char>>)>
    decreases n,
{
    if n == 0 {
        Seq::empty()
    } else {
        let rest = migration_plan(engine, config, present, (n - 1) as nat);
        let o = observed(present, n - 1);
        match migration_step(engine, config, legacy_config_files()[n - 1], o.0, o.1) {
            Some(s) => rest.push(s),
            None => rest,
        }
    }
}

impl EnvironmentManager {
    /// Chooses the active environment from what the process observed.
    pub fn resolve(probe: EnvironmentProbe) -> (r: Self)
        ensures
            (r.mode, r.local_dir@, r.global_dir@) == resolved_environment(probe),
            opt_string_view(r.models_dir_override) == opt_string_view(probe.models_dir_override),
    {
        let over = probe.models_dir_override;
        if probe.portable_flag && probe.executable_dir.is_some() {
            let d = match probe.executable_dir {
                Some(d) => d,
                None => String::new(),
            };
            let d2 = string_of(chars_of(d.as_str()).as_slice());
            return Self {
                mode: EnvironmentMode::Portable,
                local_dir: d2,
                global_dir: d,
                models_dir_override: over,
            };
        }
        if let Some(root) = probe.home_override {
            let r2 = string_of(chars_of(root.as_str()).as_slice());
            return Self {
                mode: EnvironmentMode::Installed,
                local_dir: r2,
                global_dir: root,
                models_dir_override: over,
            };
        }
        let cd = probe.current_dir;
        if Self::is_local_workspace_binary(cd.as_str(), &probe.executable, probe.cargo_env) {
            return Self {
                mode: EnvironmentMode::Development,
                local_dir: join_str(cd.as_str(), ".1bitshit"),
                global_dir: cd,
                models_dir_override: over,
            };
        }
        let g = Self::installed_root(probe.home_dir.as_str());
        let g2 = string_of(chars_of(g.as_str()).as_slice());
        Self { mode: EnvironmentMode::Installed, local_dir: g2, global_dir: g, models_dir_override: over }
    }

    /// Whether the executable was built in the workspace at `current_dir`.
    pub fn is_local_workspace_binary(
        current_dir: &str,
        executable: &Option<String>,
        cargo_env: bool,
    ) -> (r: bool)
        ensures
            r == is_workspace_binary(current_dir@, opt_string_view(*executable), cargo_env),
    {
        let under_target = match executable {
            Some(e) => {
                let t = join_exec(chars_of(current_dir).as_slice(), chars_of("target").as_slice());
                let a = components_exec(t.as_slice());
                let b = components_exec(chars_of(e.as_str()).as_slice());
                is_prefix_components_exec(a.as_slice(), b.as_slice())
            },
            None => false,
        };
        under_target || cargo_env
    }

    /// The installed runtime root below `home_dir`.
    pub fn installed_root(home_dir: &str) -> (r: String)
        ensures
            r@ == installed_root(home_dir@),
    {
        join_str(home_dir, ".1bitshit")
    }

    pub fn engine_dir(&self) -> (r: String)
        ensures
            r@ == spec_engine_dir(self.local_dir@),
    {
        join_str(self.local_dir.as_str(), "engine")
    }

    pub fn kernel_dir(&self) -> (r: String)
        ensures
            r@ == spec_engine_dir(self.local_dir@),
    {
        self.engine_dir()
    }

    pub fn drivers_dir(&self) -> (r: String)
        ensures
            r@ == join(spec_engine_dir(self.local_dir@), "drivers"@),
    {
        join_str(self.engine_dir().as_str(), "drivers")
    }

    pub fn config_dir(&self) -> (r: String)
        ensures
            r@ == join(spec_engine_dir(self.local_dir@), "config"@),
    {
        join_str(self.engine_dir().as_str(), "config")
    }

    /// `BITSHIT_MODELS_DIR` when set, otherwise `<global>/models`.
    pub fn models_dir(&self) -> (r: String)
        ensures
            r@ == spec_models_dir(self.global_dir@, opt_string_view(self.models_dir_override)),
    {
        match &self.models_dir_override {
            Some(p) => string_of(chars_of(p.as_str()).as_slice()),
            None => join_str(self.global_dir.as_str(), "models"),
        }
    }

    pub fn chat_models_dir(&self) -> (r: String)
        ensures
            r@ == join(
                spec_models_dir(self.global_dir@, opt_string_view(self.models_dir_override)),
                "chat"@,
            ),
    {
        join_str(self.models_dir().as_str(), "chat")
    }

    pub fn embedding_models_dir(&self) -> (r: String)
        ensures
            r@ == join(
                spec_models_dir(self.global_dir@, opt_string_view(self.models_dir_override)),
                "embedding"@,
            ),
    {
        join_str(self.models_dir().as_str(), "embedding")
    }

    pub fn vision_models_dir(&self) -> (r: String)
        ensures
            r@ == join(
                spec_models_dir(self.global_dir@, opt_string_view(self.models_dir_override)),
                "vision"@,
            ),
    {
        join_str(self.models_dir().as_str(), "vision")
    }

    pub fn kv_cache_dir(&self) -> (r: String)
        ensures
            r@ == join(self.local_dir@, "kv_cache"@),
    {
        join_str(self.local_dir.as_str(), "kv_cache")
    }

    pub fn skills_dir(&self) -> (r: String)
        ensures
            r@ == join(self.global_dir@, "skills"@),
    {
        join_str(self.global_dir.as_str(), "skills")
    }

    pub fn extensions_dir(&self) -> (r: String)
        ensures
            r@ == join(self.global_dir@, "extensions"@),
    {
        join_str(self.global_dir.as_str(), "extensions")
    }

    pub fn plugins_dir(&self) -> (r: String)
        ensures
            r@ == join(self.global_dir@, "plugins"@),
    {
        join_str(self.global_dir.as_str(), "plugins")
    }

    pub fn mcp_dir(&self) -> (r: String)
        ensures
            r@ == join(self.global_dir@, "mcp"@),
    {
        join_str(self.global_dir.as_str(), "mcp")
    }

    pub fn reports_dir(&self) -> (r: String)
        ensures
            r@ == join(self.local_dir@, "reports"@),
    {
        join_str(self.local_dir.as_str(), "reports")
    }

    /// The legacy configuration file names, in the order they are migrated.
    pub fn legacy_config_files() -> (r: Vec<String>)
        ensures
            r@.map_values(|s: String| s@) == legacy_config_files(),
    {
        let mut r: Vec<String> = Vec::new();
        r.push(string_of(chars_of("Permission.json").as_slice()));
        r.push(string_of(chars_of("Permission.bin").as_slice()));
        r.push(string_of(chars_of("system_control.json").as_slice()));
        r.push(string_of(chars_of("system_control.bin").as_slice()));
        r.push(string_of(chars_of("package.json").as_slice()));
        r.push(string_of(chars_of("package.bin").as_slice()));
        assert(r@.map_values(|s: String| s@) =~= legacy_config_files());
        r
    }

    /// The steps that move legacy configuration out of the engine directory.
    /// `present[i]` tells whether legacy file `i` exists in the engine
    /// directory and whether it already exists in the config directory.
    pub fn config_migration_plan(&self, present: &Vec<(bool, bool)>) -> (r: Vec<ConfigMigration>)
        ensures
            r@.map_values(|m: ConfigMigration| m@) == migration_plan(
                spec_engine_dir(self.local_dir@),
                join(spec_engine_dir(self.local_dir@), "config"@),
                present@,
                6,
            ),
    {
        let engine = self.engine_dir();
        let config = self.config_dir();
        let names = Self::legacy_config_files();
        let e = chars_of(engine.as_str());
        let c = chars_of(config.as_str());
        let mut r: Vec<ConfigMigration> = Vec::new();
        let mut i: usize = 0;
        assert(names@.map_values(|s: String| s@).len() == 6);
        while i < 6
            invariant
                i <= 6,
                names@.len() == 6,
                names@.map_values(|s: String| s@) == legacy_config_files(),
                e@ == spec_engine_dir(self.local_dir@),
                c@ == join(spec_engine_dir(self.local_dir@), "config"@),
                r@.map_values(|m: ConfigMigration| m@) == migration_plan(e@, c@, present@, i as nat),
            decreases 6 - i,
        {
            let (legacy, migrated) = if i < present.len() {
                present[i]
            } else {
                (false, false)
            };
            assert(names@.map_values(|s: String| s@)[i as int] == names@[i as int]@);
            let name = chars_of(names[i].as_str());
            let ghost before = r@.map_values(|m: ConfigMigration| m@);
            if legacy {
                let from = string_of(join_exec(e.as_slice(), name.as_slice()).as_slice());
                if !migrated {
                    let to = string_of(join_exec(c.as_slice(), name.as_slice()).as_slice());
                    r.push(ConfigMigration::Move { from, to });
                } else {
                    r.push(ConfigMigration::Discard { from });
                }
                assert(r@.map_values(|m: ConfigMigration| m@) =~= before.push(
                    r@[r@.len() - 1]@,
                ));
            }
            i = i + 1;
        }
        r
    }
}

} // verus!
