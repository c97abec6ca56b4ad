//! Start-up of the runtime: release version comparison, platform keys, the
//! component registry, and the decisions of when an engine or kernel is
//! fetched.
use vstd::prelude::*;
use crate::drivers::{dynamic_library_extension, library_extension_of};
use crate::kernel_loader::HostOs;
use crate::text::{
    before_first, before_first_exec, chars_eq, chars_of, concat, concat3, eq_ignore_ascii_case,
    eq_ignore_case, lower, parse_unsigned, parse_unsigned_exec, split_char, split_char_exec,
    string_of, strip_prefixes, strip_prefixes_exec, to_lower, trim, trim_exec, views,
};

verus! {

// ---------------------------------------------------------------------------
// Release versions
// ---------------------------------------------------------------------------

/// The numeric part of a version: surrounding whitespace, leading `v`s and
/// any `-suffix` removed.
pub open spec fn version_core(s: Seq<char>) -> Seq<char> {
    before_first(strip_prefixes(trim(s), "v"@), "-"@)
}

/// Every dot-separated part parsed as a `u64`, or `None` if one does not parse.
pub open spec fn parse_parts(parts: Seq<Seq<char>>) -> Option<Seq<nat>>
    decreases parts.len(),
{
    if parts.len() == 0 {
        Some(Seq::empty())
    } else {
        match (parse_parts(parts.drop_last()), parse_unsigned(parts.last(), u64::MAX as nat)) {
            (Some(v), Some(n)) => Some(v.push(n)),
            _ => None,
        }
    }
}

/// The numbers of a version (`v1.2.3-beta` gives `[1, 2, 3]`).
pub open spec fn numeric_version(s: Seq<char>) -> Option<Seq<nat>> {
    parse_parts(split_char(version_core(s), '.'))
}

/// Lexicographic order on number sequences, a proper prefix being smaller
/// (the order of `Vec<u64>`).
pub open spec fn lex_greater(a: Seq<nat>, b: Seq<nat>) -> bool
    decreases a.len(),
{
    if a.len() == 0 {
        false
    } else if b.len() == 0 {
        true
    } else if a[0] != b[0] {
        a[0] > b[0]
    } else {
        lex_greater(a.drop_first(), b.drop_first())
    }
}

/// `latest` is a newer release than `current`: both parse and `latest`
/// orders after `current`.
pub open spec fn newer_version(latest: Seq<char>, current: Seq<char>) -> bool {
    match (numeric_version(latest), numeric_version(current)) {
        (Some(l), Some(c)) => lex_greater(l, c),
        _ => false,
    }
}

proof fn lemma_lex_irreflexive(a: Seq<nat>)
    ensures
        !lex_greater(a, a),
    decreases a.len(),
{
    if a.len() > 0 {
        lemma_lex_irreflexive(a.drop_first());
    }
}

proof fn lemma_lex_asymmetric(a: Seq<nat>, b: Seq<nat>)
    ensures
        !(lex_greater(a, b) && lex_greater(b, a)),
    decreases a.len(),
{
    if a.len() > 0 && b.len() > 0 && a[0] == b[0] {
        lemma_lex_asymmetric(a.drop_first(), b.drop_first());
    }
}

proof fn lemma_lex_transitive(a: Seq<nat>, b: Seq<nat>, c: Seq<nat>)
    requires
        lex_greater(a, b),
        lex_greater(b, c),
    ensures
        lex_greater(a, c),
    decreases a.len(),
{
    if c.len() > 0 && a[0] == b[0] && b[0] == c[0] {
        lemma_lex_transitive(a.drop_first(), b.drop_first(), c.drop_first());
    }
}

/// No version is newer than itself.
pub proof fn law_version_not_newer_than_itself(v: Seq<char>)
    ensures
        !newer_version(v, v),
{
    if let Some(n) = numeric_version(v) {
        lemma_lex_irreflexive(n);
    }
}

/// Of two versions, at most one is newer than the other.
pub proof fn law_version_newer_asymmetric(a: Seq<char>, b: Seq<char>)
    ensures
        !(newer_version(a, b) && newer_version(b, a)),
{
    if let (Some(x), Some(y)) = (numeric_version(a), numeric_version(b)) {
        lemma_lex_asymmetric(x, y);
    }
}

/// Being newer is transitive.
pub proof fn law_version_newer_transitive(a: Seq<char>, b: Seq<char>, c: Seq<char>)
    requires
        newer_version(a, b),
        newer_version(b, c),
    ensures
        newer_version(a, c),
{
    lemma_lex_transitive(
        numeric_version(a).unwrap(),
        numeric_version(b).unwrap(),
        numeric_version(c).unwrap(),
    );
}

fn numeric_version_exec(s: &str) -> (r: Option<Vec<u64>>)
    ensures
        match r {
            Some(v) => numeric_version(s@) == Some(v@.map_values(|x: u64| x as nat)),
            None => numeric_version(s@) is None,
        },
{
    let t = trim_exec(chars_of(s).as_slice());
    let v = strip_prefixes_exec(t.as_slice(), chars_of("v").as_slice());
    let core = before_first_exec(v.as_slice(), chars_of("-").as_slice());
    let parts = split_char_exec(core.as_slice(), '.');
    let ghost all = views(parts@);
    let mut out: Vec<u64> = Vec::new();
    let mut i: usize = 0;
    while i < parts.len()
        invariant
            i <= parts@.len(),
            all == views(parts@),
            all == split_char(version_core(s@), '.'),
            parse_parts(all.subrange(0, i as int)) == Some(
                out@.map_values(|x: u64| x as nat),
            ),
        decreases parts@.len() - i,
    {
        let ghost pre = all.subrange(0, i + 1);
        assert(pre.drop_last() =~= all.subrange(0, i as int));
        assert(pre.last() == parts@[i as int]@);
        match parse_unsigned_exec(parts[i].as_slice(), u64::MAX) {
            Some(n) => {
                let ghost before = out@.map_values(|x: u64| x as nat);
                out.push(n);
                assert(out@.map_values(|x: u64| x as nat) =~= before.push(n as nat));
            },
            None => {
                proof {
                    lemma_parse_parts_none(all, i as int);
                }
                return None;
            },
        }
        i = i + 1;
    }
    assert(all.subrange(0, all.len() as int) =~= all);
    Some(out)
}

proof fn lemma_parse_parts_none(all: Seq<Seq<char>>, i: int)
    requires
        0 <= i < all.len(),
        parse_unsigned(all[i], u64::MAX as nat) is None,
    ensures
        parse_parts(all) is None,
    decreases all.len(),
{
    if i < all.len() - 1 {
        lemma_parse_parts_none(all.drop_last(), i);
    }
}

fn lex_greater_exec(a: &Vec<u64>, b: &Vec<u64>) -> (r: bool)
    ensures
        r == lex_greater(a@.map_values(|x: u64| x as nat), b@.map_values(|x: u64| x as nat)),
{
    let ghost sa = a@.map_values(|x: u64| x as nat);
    let ghost sb = b@.map_values(|x: u64| x as nat);
    let mut i: usize = 0;
    assert(sa.subrange(0, sa.len() as int) =~= sa);
    assert(sb.subrange(0, sb.len() as int) =~= sb);
    while i < a.len() && i < b.len() && a[i] == b[i]
        invariant
            i <= a@.len(),
            i <= b@.len(),
            sa == a@.map_values(|x: u64| x as nat),
            sb == b@.map_values(|x: u64| x as nat),
            lex_greater(sa, sb) == lex_greater(
                sa.subrange(i as int, sa.len() as int),
                sb.subrange(i as int, sb.len() as int),
            ),
        decreases a@.len() - i,
    {
        let ghost ra = sa.subrange(i as int, sa.len() as int);
        let ghost rb = sb.subrange(i as int, sb.len() as int);
        assert(ra.drop_first() =~= sa.subrange(i + 1, sa.len() as int));
        assert(rb.drop_first() =~= sb.subrange(i + 1, sb.len() as int));
        i = i + 1;
    }
    if i >= a.len() {
        false
    } else if i >= b.len() {
        true
    } else {
        a[i] > b[i]
    }
}

// ---------------------------------------------------------------------------
// Component registry
// ---------------------------------------------------------------------------

/// A component entry of the registry (`components.<name>`): whether it is
/// present, and its `version` and `manifest_url` where they are strings.
pub struct ComponentInfo {
    pub present: bool,
    pub version: Option<String>,
    pub manifest_url: Option<String>,
}

/// What the runtime reads of the component registry (`package.json`).
pub struct Registry {
    pub name: Option<String>,
    pub cli: ComponentInfo,
    pub engine: ComponentInfo,
    pub kernel: ComponentInfo,
    pub drivers_manifest_url: Option<String>,
}

/// A registry published for this runtime: it is named `1bitshit-cpu` and
/// versions its CLI, engine and kernel.
pub open spec fn is_bitshit_registry(r: Registry) -> bool {
    &&& r.name is Some
    &&& r.name->0@ == "1bitshit-cpu"@
    &&& r.cli.version is Some
    &&& r.engine.version is Some
    &&& r.kernel.version is Some
}

/// An offline switch value: `1`, `true` or `yes` in any letter case.
pub open spec fn offline_value(v: Seq<char>) -> bool {
    lower(v) == "1"@ || lower(v) == "true"@ || lower(v) == "yes"@
}

/// The release platform of the host.
pub open spec fn platform_key(host: HostOs) -> Seq<char> {
    match host {
        HostOs::Windows => "win-x64"@,
        HostOs::MacOs => "mac-arm64"@,
        _ => "linux-x64"@,
    }
}

/// Whether any ISA feature names AVX-512.
pub open spec fn has_avx512(features: Seq<Seq<char>>) -> bool {
    exists|i: int| 0 <= i < features.len() && eq_ignore_case(features[i], "AVX-512"@)
}

/// The kernel build for a platform: x64 platforms get an `avx512` or `avx2`
/// build, others their plain platform build.
pub open spec fn specialized_platform(platform: Seq<char>, features: Option<Seq<Seq<char>>>) -> Seq<
    char,
> {
    if platform != "win-x64"@ && platform != "linux-x64"@ {
        platform
    } else {
        let avx512 = match features {
            Some(f) => has_avx512(f),
            None => false,
        };
        platform + (if avx512 {
            "-avx512"@
        } else {
            "-avx2"@
        })
    }
}

pub open spec fn component_version(c: ComponentInfo) -> Seq<char> {
    match c.version {
        Some(v) => v@,
        None => "unknown"@,
    }
}

/// What to do about an engine or kernel artifact.
pub enum SyncDecision {
    /// The installed artifact stays as it is.
    Keep,
    /// Fetch the platform manifest at `manifest_url` and install `version`.
    Fetch { manifest_url: String, version: String },
    /// Start-up cannot go on.
    Fail(String),
}

pub open spec fn sync_view(d: SyncDecision) -> (int, Seq<char>, Seq<char>) {
    match d {
        SyncDecision::Keep => (0, Seq::empty(), Seq::empty()),
        SyncDecision::Fetch { manifest_url, version } => (1, manifest_url@, version@),
        SyncDecision::Fail(e) => (2, e@, Seq::empty()),
    }
}

/// The engine is fetched unless it is installed at the registry version; a
/// missing manifest URL fails only when no engine is installed.
pub open spec fn engine_decision(c: ComponentInfo, installed: bool, marker: Seq<char>) -> (
    int,
    Seq<char>,
    Seq<char>,
) {
    let version = component_version(c);
    if !c.present {
        (0, Seq::empty(), Seq::empty())
    } else if installed && trim(marker) == version {
        (0, Seq::empty(), Seq::empty())
    } else {
        match c.manifest_url {
            Some(u) => (1, u@, version),
            None => if installed {
                (0, Seq::empty(), Seq::empty())
            } else {
                (2, "Engine manifest URL is missing"@, Seq::empty())
            },
        }
    }
}

/// The kernel is fetched when it is missing or not at the registry version
/// and the registry gives a manifest URL.
pub open spec fn kernel_decision(c: ComponentInfo, installed: bool, marker: Seq<char>) -> (
    int,
    Seq<char>,
    Seq<char>,
) {
    let version = component_version(c);
    if !c.present || (installed && trim(marker) == version) {
        (0, Seq::empty(), Seq::empty())
    } else {
        match c.manifest_url {
            Some(u) => (1, u@, version),
            None => (0, Seq::empty(), Seq::empty()),
        }
    }
}

/// A platform manifest: the string entries of its `engines` or `kernels`
/// object, keyed by platform.
pub struct PlatformManifest {
    pub entries: Vec<(String, String)>,
}

pub open spec fn manifest_lookup(entries: Seq<(String, String)>, key: Seq<char>) -> Option<Seq<char>>
    decreases entries.len(),
{
    if entries.len() == 0 {
        None
    } else if entries[0].0@ == key {
        Some(entries[0].1@)
    } else {
        manifest_lookup(entries.drop_first(), key)
    }
}

impl PlatformManifest {
    /// The first URL listed for `key`.
    pub fn lookup(&self, key: &str) -> (r: Option<String>)
        ensures
            match r {
                Some(u) => manifest_lookup(self.entries@, key@) == Some(u@),
                None => manifest_lookup(self.entries@, key@) is None,
            },
    {
        let k = chars_of(key);
        let mut i: usize = 0;
        assert(self.entries@.subrange(0, self.entries@.len() as int) =~= self.entries@);
        while i < self.entries.len()
            invariant
                i <= self.entries@.len(),
                k@ == key@,
                manifest_lookup(self.entries@, key@) == manifest_lookup(
                    self.entries@.subrange(i as int, self.entries@.len() as int),
                    key@,
                ),
            decreases self.entries@.len() - i,
        {
            let ghost rest = self.entries@.subrange(i as int, self.entries@.len() as int);
            assert(rest.drop_first() =~= self.entries@.subrange(i + 1, self.entries@.len() as int));
            if chars_eq(chars_of(self.entries[i].0.as_str()).as_slice(), k.as_slice()) {
                return Some(string_of(chars_of(self.entries[i].1.as_str()).as_slice()));
            }
            i = i + 1;
        }
        None
    }

    /// The engine binary for `platform`.
    pub fn engine_url(&self, platform: &str) -> (r: Result<String, String>)
        ensures
            match manifest_lookup(self.entries@, platform@) {
                Some(u) => r matches Ok(s) && s@ == u,
                None => r matches Err(e) && e@ == "No engine binary for '"@ + platform@ + "'"@,
            },
    {
        match self.lookup(platform) {
            Some(u) => Ok(u),
            None => Err(
                string_of(
                    concat3(
                        chars_of("No engine binary for '").as_slice(),
                        chars_of(platform).as_slice(),
                        chars_of("'").as_slice(),
                    ).as_slice(),
                ),
            ),
        }
    }

    /// The Llama kernel for the specialized build, else for the platform.
    pub fn kernel_url(&self, specialization: &str, platform: &str) -> (r: Result<String, String>)
        ensures
            match manifest_lookup(self.entries@, specialization@) {
                Some(u) => r matches Ok(s) && s@ == u,
                None => match manifest_lookup(self.entries@, platform@) {
                    Some(u) => r matches Ok(s) && s@ == u,
                    None => r matches Err(e) && e@ == "No Llama kernel for '"@ + specialization@
                        + "'"@,
                },
            },
    {
        match self.lookup(specialization) {
            Some(u) => Ok(u),
            None => match self.lookup(platform) {
                Some(u) => Ok(u),
                None => Err(
                    string_of(
                        concat3(
                            chars_of("No Llama kernel for '").as_slice(),
                            chars_of(specialization).as_slice(),
                            chars_of("'").as_slice(),
                        ).as_slice(),
                    ),
                ),
            },
        }
    }
}

fn has_avx512_exec(f: &Vec<String>) -> (r: bool)
    ensures
        r == has_avx512(f@.map_values(|s: String| s@)),
{
    let ghost fs = f@.map_values(|s: String| s@);
    let target = chars_of("AVX-512");
    let mut i: usize = 0;
    while i < f.len()
        invariant
            i <= f@.len(),
            fs == f@.map_values(|s: String| s@),
            target@ == "AVX-512"@,
            forall|k: int| 0 <= k < i ==> !eq_ignore_case(#[trigger] fs[k], "AVX-512"@),
        decreases f@.len() - i,
    {
        if eq_ignore_ascii_case(chars_of(f[i].as_str()).as_slice(), target.as_slice()) {
            assert(eq_ignore_case(fs[i as int], "AVX-512"@));
            return true;
        }
        i = i + 1;
    }
    false
}

fn sync_decision_exec(c: &ComponentInfo, installed: bool, marker: &str, engine: bool) -> (r:
    SyncDecision)
    ensures
        engine ==> sync_view(r) == engine_decision(*c, installed, marker@),
        !engine ==> sync_view(r) == kernel_decision(*c, installed, marker@),
{
    if !c.present {
        return SyncDecision::Keep;
    }
    let version = match &c.version {
        Some(v) => chars_of(v.as_str()),
        None => chars_of("unknown"),
    };
    let current = chars_eq(trim_exec(chars_of(marker).as_slice()).as_slice(), version.as_slice());
    if installed && current {
        return SyncDecision::Keep;
    }
    match &c.manifest_url {
        Some(u) => SyncDecision::Fetch {
            manifest_url: string_of(chars_of(u.as_str()).as_slice()),
            version: string_of(version.as_slice()),
        },
        None => if engine && !installed {
            SyncDecision::Fail(string_of(chars_of("Engine manifest URL is missing").as_slice()))
        } else {
            SyncDecision::Keep
        },
    }
}

/// Boots the runtime and keeps its engine, kernels and drivers current.
pub struct Bootstrapper;

impl Bootstrapper {
    /// Whether `latest` is a newer release than `current`.
    pub fn is_newer_version(latest: &str, current: &str) -> (r: bool)
        ensures
            r == newer_version(latest@, current@),
    {
        match (numeric_version_exec(latest), numeric_version_exec(current)) {
            (Some(l), Some(c)) => lex_greater_exec(&l, &c),
            _ => false,
        }
    }

    /// The shared-library extension of the host.
    pub fn dynamic_library_extension(host: HostOs) -> (r: String)
        ensures
            r@ == library_extension_of(host),
    {
        dynamic_library_extension(host)
    }

    /// The release platform of the host.
    pub fn platform_key(host: HostOs) -> (r: String)
        ensures
            r@ == platform_key(host),
    {
        match host {
            HostOs::Windows => string_of(chars_of("win-x64").as_slice()),
            HostOs::MacOs => string_of(chars_of("mac-arm64").as_slice()),
            _ => string_of(chars_of("linux-x64").as_slice()),
        }
    }

    /// The kernel build for `platform`, given the CPU's ISA features when the
    /// hardware report could be read.
    pub fn specialized_platform_key(platform: &str, isa_features: Option<&Vec<String>>) -> (r:
        String)
        ensures
            r@ == specialized_platform(
                platform@,
                match isa_features {
                    Some(f) => Some(f@.map_values(|s: String| s@)),
                    None => None,
                },
            ),
    {
        let p = chars_of(platform);
        if !chars_eq(p.as_slice(), chars_of("win-x64").as_slice()) && !chars_eq(
            p.as_slice(),
            chars_of("linux-x64").as_slice(),
        ) {
            return string_of(p.as_slice());
        }
        let avx512 = match isa_features {
            Some(f) => has_avx512_exec(f),
            None => false,
        };
        let suffix = if avx512 {
            chars_of("-avx512")
        } else {
            chars_of("-avx2")
        };
        string_of(concat(p.as_slice(), suffix.as_slice()).as_slice())
    }

    /// Whether a registry was published for this runtime.
    pub fn is_bitshit_registry(registry: &Registry) -> (r: bool)
        ensures
            r == is_bitshit_registry(*registry),
    {
        let named = match &registry.name {
            Some(n) => chars_eq(chars_of(n.as_str()).as_slice(), chars_of("1bitshit-cpu").as_slice()),
            None => false,
        };
        named && registry.cli.version.is_some() && registry.engine.version.is_some()
            && registry.kernel.version.is_some()
    }

    /// Whether a `BITSHIT_OFFLINE` value switches the registry offline.
    pub fn is_offline(value: Option<&str>) -> (r: bool)
        ensures
            r == match value {
                Some(v) => offline_value(v@),
                None => false,
            },
    {
        match value {
            Some(v) => {
                let l = to_lower(chars_of(v).as_slice());
                chars_eq(l.as_slice(), chars_of("1").as_slice()) || chars_eq(
                    l.as_slice(),
                    chars_of("true").as_slice(),
                ) || chars_eq(l.as_slice(), chars_of("yes").as_slice())
            },
            None => false,
        }
    }

    /// The newest CLI release the registry announces, if it is newer than
    /// `current`.
    pub fn update_notice(registry: &Registry, current: &str) -> (r: Option<String>)
        ensures
            ({
                let latest = match registry.cli.version {
                    Some(v) => v@,
                    None => current@,
                };
                match r {
                    Some(l) => newer_version(latest, current@) && l@ == latest,
                    None => !newer_version(latest, current@),
                }
            }),
    {
        let latest = match &registry.cli.version {
            Some(v) => string_of(chars_of(v.as_str()).as_slice()),
            None => string_of(chars_of(current).as_slice()),
        };
        if Self::is_newer_version(latest.as_str(), current) {
            Some(latest)
        } else {
            None
        }
    }

    /// What to do about the engine, given whether it is installed and the
    /// text of its readiness marker (empty when unreadable).
    pub fn engine_sync_decision(registry: &Registry, installed: bool, marker: &str) -> (r:
        SyncDecision)
        ensures
            sync_view(r) == engine_decision(registry.engine, installed, marker@),
    {
        sync_decision_exec(&registry.engine, installed, marker, true)
    }

    /// What to do about the Llama kernel, given whether it is installed and
    /// the text of its readiness marker (empty when unreadable).
    pub fn kernel_sync_decision(registry: &Registry, installed: bool, marker: &str) -> (r:
        SyncDecision)
        ensures
            sync_view(r) == kernel_decision(registry.kernel, installed, marker@),
    {
        sync_decision_exec(&registry.kernel, installed, marker, false)
    }
}

} // verus!
