//! Copying freshly built artifacts of a development workspace into a runtime
//! tree, and importing the data of a legacy runtime tree. Both are computed
//! as plans of file operations from what was observed on disk.
use vstd::prelude::*;
use crate::drivers::{dynamic_library_extension, library_extension_of};
use crate::environment::{EnvironmentManager, EnvironmentMode};
use crate::kernel_loader::HostOs;
use crate::paths::{components, components_exec, component_lists_eq, join, join_exec};
use crate::text::{
    chars_eq, chars_of, concat, concat3, contains_exec, contains_seq, string_of, string_views,
    to_vec, views,
};

verus! {

/// A file operation of a plan, as a specification value.
pub enum DevStep {
    /// Copy an artifact file (through a temporary file) over a destination.
    Copy(Seq<char>, Seq<char>),
    /// Write a readiness marker holding a version.
    Marker(Seq<char>, Seq<char>),
    /// Copy a directory tree, keeping files that already exist.
    Tree(Seq<char>, Seq<char>),
}

/// A file operation of a plan.
pub enum DevSyncAction {
    CopyArtifact { from: String, to: String },
    WriteMarker { path: String, contents: String },
    CopyTree { from: String, to: String },
}

impl View for DevSyncAction {
    type V = DevStep;

    open spec fn view(&self) -> DevStep {
        match self {
            DevSyncAction::CopyArtifact { from, to } => DevStep::Copy(from@, to@),
            DevSyncAction::WriteMarker { path, contents } => DevStep::Marker(path@, contents@),
            DevSyncAction::CopyTree { from, to } => DevStep::Tree(from@, to@),
        }
    }
}

pub open spec fn action_views(v: Seq<DevSyncAction>) -> Seq<DevStep> {
    v.map_values(|a: DevSyncAction| a@)
}

/// What was observed in the workspace: its root (the working directory),
/// the paths found to be files, the paths found to be directories, and
/// whether its runtime tree `.1bitshit` and the legacy tree `.cluaiz` exist.
pub struct DevSyncProbe {
    pub root: String,
    pub files: Vec<String>,
    pub dirs: Vec<String>,
    pub runtime_exists: bool,
    pub legacy_runtime_exists: bool,
}

/// The build output directory of a profile (`release`, anything else is
/// `debug`).
pub open spec fn build_dir(root: Seq<char>, profile: Seq<char>) -> Seq<char> {
    join(
        join(root, "target"@),
        if profile == "release"@ {
            "release"@
        } else {
            "debug"@
        },
    )
}

pub open spec fn dotted(name: Seq<char>, ext: Seq<char>) -> Seq<char> {
    name + seq!['.'] + ext
}

/// Where an artifact built from `base` may lie, in search order.
pub open spec fn artifact_candidates(dir: Seq<char>, base: Seq<char>, ext: Seq<char>) -> Seq<
    Seq<char>,
> {
    let plain = dotted(base, ext);
    let prefixed = dotted("lib"@ + base, ext);
    seq![
        join(dir, plain),
        join(join(dir, "deps"@), plain),
        join(dir, prefixed),
        join(join(dir, "deps"@), prefixed),
    ]
}

/// The first candidate that is a file.
pub open spec fn first_listed(cands: Seq<Seq<char>>, files: Seq<Seq<char>>) -> Option<Seq<char>>
    decreases cands.len(),
{
    if cands.len() == 0 {
        None
    } else if files.contains(cands[0]) {
        Some(cands[0])
    } else {
        first_listed(cands.drop_first(), files)
    }
}

/// The first artifact found for any of the base names, in order.
pub open spec fn find_artifact(
    dir: Seq<char>,
    bases: Seq<Seq<char>>,
    ext: Seq<char>,
    files: Seq<Seq<char>>,
) -> Option<Seq<char>>
    decreases bases.len(),
{
    if bases.len() == 0 {
        None
    } else {
        match first_listed(artifact_candidates(dir, bases[0], ext), files) {
            Some(p) => Some(p),
            None => find_artifact(dir, bases.drop_first(), ext, files),
        }
    }
}

/// The native libraries of the runtime: the names they are built under,
/// the name they are installed under, and whether they are runtime
/// dependencies (installed among the drivers, without a marker).
pub open spec fn library_table() -> Seq<(Seq<Seq<char>>, Seq<char>, bool)> {
    seq![
        (seq!["bitshit_llama"@, "cluaiz_llama"@], "bitshit-llama"@, false),
        (seq!["bitshit_onnx"@, "cluaiz_onnx"@], "bitshit-onnx"@, false),
        (seq!["onnxruntime"@], "onnxruntime"@, true),
        (seq!["onnxruntime_providers_shared"@], "onnxruntime_providers_shared"@, true),
        (seq!["onnxruntime_providers_cuda"@], "onnxruntime_providers_cuda"@, true),
        (seq!["onnxruntime_providers_tensorrt"@], "onnxruntime_providers_tensorrt"@, true),
        (
            seq!["onnxruntime_providers_nv_tensorrt_rtx"@],
            "onnxruntime_providers_nv_tensorrt_rtx"@,
            true,
        ),
    ]
}

/// Whether a library takes part: with target `driver` and a requested
/// driver, only libraries whose names mention it.
pub open spec fn library_selected(
    target: Seq<char>,
    driver: Option<Seq<char>>,
    sources: Seq<Seq<char>>,
    dest: Seq<char>,
) -> bool {
    match driver {
        Some(req) => !(target == "driver"@ && !contains_seq(dest, req) && !(exists|k: int|
            0 <= k < sources.len() && contains_seq(sources[k], req))),
        None => true,
    }
}

pub open spec fn engine_dir_of(hub: Seq<char>) -> Seq<char> {
    join(hub, "engine"@)
}

/// The steps for one library.
pub open spec fn library_steps(
    dir: Seq<char>,
    hub: Seq<char>,
    ext: Seq<char>,
    version: Seq<char>,
    target: Seq<char>,
    driver: Option<Seq<char>>,
    files: Seq<Seq<char>>,
    entry: (Seq<Seq<char>>, Seq<char>, bool),
) -> Seq<DevStep> {
    if !library_selected(target, driver, entry.0, entry.1) {
        Seq::empty()
    } else {
        match find_artifact(dir, entry.0, ext, files) {
            None => Seq::empty(),
            Some(src) => if entry.2 {
                seq![DevStep::Copy(src, join(join(engine_dir_of(hub), "drivers"@), dotted(entry.1, ext)))]
            } else {
                seq![
                    DevStep::Copy(src, join(engine_dir_of(hub), dotted(entry.1, ext))),
                    DevStep::Marker(join(engine_dir_of(hub), entry.1 + ".ready"@), version),
                ]
            },
        }
    }
}

/// The steps for the first `n` libraries of the table.
pub open spec fn libraries_steps(
    dir: Seq<char>,
    hub: Seq<char>,
    ext: Seq<char>,
    version: Seq<char>,
    target: Seq<char>,
    driver: Option<Seq<char>>,
    files: Seq<Seq<char>>,
    n: nat,
) -> Seq<DevStep>
    decreases n,
{
    if n == 0 {
        Seq::empty()
    } else {
        libraries_steps(dir, hub, ext, version, target, driver, files, (n - 1) as nat)
            + library_steps(dir, hub, ext, version, target, driver, files, library_table()[n - 1])
    }
}

pub open spec fn is_core_target(target: Seq<char>) -> bool {
    target == "all"@ || target == "core"@
}

/// The engine library and its marker.
pub open spec fn engine_steps(
    dir: Seq<char>,
    hub: Seq<char>,
    ext: Seq<char>,
    version: Seq<char>,
    target: Seq<char>,
    files: Seq<Seq<char>>,
) -> Seq<DevStep> {
    if !is_core_target(target) {
        Seq::empty()
    } else {
        match find_artifact(dir, seq!["engines"@], ext, files) {
            None => Seq::empty(),
            Some(src) => seq![
                DevStep::Copy(src, join(engine_dir_of(hub), dotted("bitshit-engine"@, ext))),
                DevStep::Marker(join(engine_dir_of(hub), "bitshit-engine.ready"@), version),
            ],
        }
    }
}

pub open spec fn executable_name(host: HostOs) -> Seq<char> {
    if host == HostOs::Windows {
        "bitshit.exe"@
    } else {
        "bitshit"@
    }
}

/// The data folders copied from a workspace runtime tree.
pub open spec fn runtime_folders() -> Seq<Seq<char>> {
    seq!["brain"@, "skills"@, "extensions"@, "plugins"@, "mcp"@]
}

/// The tree copies of the first `n` folders that exist below `source`.
pub open spec fn folder_copies(
    source: Seq<char>,
    dest: Seq<char>,
    folders: Seq<Seq<char>>,
    present: Seq<Seq<char>>,
    n: nat,
) -> Seq<DevStep>
    decreases n,
{
    if n == 0 || n > folders.len() {
        Seq::empty()
    } else {
        let rest = folder_copies(source, dest, folders, present, (n - 1) as nat);
        let s = join(source, folders[n - 1]);
        if present.contains(s) {
            rest.push(DevStep::Tree(s, join(dest, folders[n - 1])))
        } else {
            rest
        }
    }
}

/// The workspace tree whose data folders are copied: `.1bitshit` when it
/// exists, else the legacy `.cluaiz`.
pub open spec fn runtime_source(root: Seq<char>, fresh_exists: bool) -> Seq<char> {
    if fresh_exists {
        join(root, ".1bitshit"@)
    } else {
        join(root, ".cluaiz"@)
    }
}

/// The executable and the workspace runtime data (`.1bitshit` when it
/// exists, else the legacy `.cluaiz` when that exists).
pub open spec fn tail_steps(
    root: Seq<char>,
    dir: Seq<char>,
    hub: Seq<char>,
    host: HostOs,
    target: Seq<char>,
    files: Seq<Seq<char>>,
    dirs: Seq<Seq<char>>,
    fresh_exists: bool,
    legacy_exists: bool,
) -> Seq<DevStep> {
    if !is_core_target(target) {
        Seq::empty()
    } else {
        let exe = executable_name(host);
        let src = join(dir, exe);
        let copy_exe = if files.contains(src) {
            seq![DevStep::Copy(src, join(join(hub, "bin"@), exe))]
        } else {
            Seq::empty()
        };
        let data = if fresh_exists || legacy_exists {
            folder_copies(runtime_source(root, fresh_exists), hub, runtime_folders(), files + dirs, 5)
        } else {
            Seq::empty()
        };
        copy_exe + data
    }
}

/// The whole plan of a development sync.
pub open spec fn dev_sync_plan(
    target: Seq<char>,
    driver: Option<Seq<char>>,
    hub: Seq<char>,
    profile: Seq<char>,
    host: HostOs,
    version: Seq<char>,
    root: Seq<char>,
    files: Seq<Seq<char>>,
    dirs: Seq<Seq<char>>,
    fresh_exists: bool,
    legacy_exists: bool,
) -> Seq<DevStep> {
    let dir = build_dir(root, profile);
    let ext = library_extension_of(host);
    engine_steps(dir, hub, ext, version, target, files) + (if target != "core"@ {
        libraries_steps(dir, hub, ext, version, target, driver, files, 7)
    } else {
        Seq::empty()
    }) + tail_steps(root, dir, hub, host, target, files, dirs, fresh_exists, legacy_exists)
}

fn listed_exec(ps: &Vec<String>, p: &[char]) -> (r: bool)
    ensures
        r == string_views(ps@).contains(p@),
{
    let ghost all = string_views(ps@);
    let mut i: usize = 0;
    while i < ps.len()
        invariant
            i <= ps@.len(),
            all == string_views(ps@),
            forall|k: int| 0 <= k < i ==> all[k] != p@,
        decreases ps@.len() - i,
    {
        if chars_eq(chars_of(ps[i].as_str()).as_slice(), p) {
            assert(all[i as int] == p@);
            return true;
        }
        i = i + 1;
    }
    false
}

fn listed_either(a: &Vec<String>, b: &Vec<String>, p: &[char]) -> (r: bool)
    ensures
        r == (string_views(a@) + string_views(b@)).contains(p@),
{
    let x = listed_exec(a, p);
    let y = listed_exec(b, p);
    proof {
        let all = string_views(a@) + string_views(b@);
        if x {
            let k = choose|k: int| 0 <= k < string_views(a@).len() && string_views(a@)[k] == p@;
            assert(all[k] == p@);
        }
        if y {
            let k = choose|k: int| 0 <= k < string_views(b@).len() && string_views(b@)[k] == p@;
            assert(all[string_views(a@).len() + k] == p@);
        }
        if all.contains(p@) {
            let k = choose|k: int| 0 <= k < all.len() && all[k] == p@;
            if k < string_views(a@).len() {
                assert(string_views(a@)[k] == p@);
            } else {
                assert(string_views(b@)[k - string_views(a@).len()] == p@);
            }
        }
    }
    x || y
}

fn dotted_exec(name: &[char], ext: &[char]) -> (r: Vec<char>)
    ensures
        r@ == dotted(name@, ext@),
{
    let dot = vec!['.'];
    assert(dot@ =~= seq!['.']);
    concat3(name, dot.as_slice(), ext)
}

fn find_artifact_exec(dir: &[char], bases: &Vec<Vec<char>>, ext: &[char], files: &Vec<String>) -> (r:
    Option<Vec<char>>)
    ensures
        match r {
            Some(p) => find_artifact(dir@, views(bases@), ext@, string_views(files@)) == Some(p@),
            None => find_artifact(dir@, views(bases@), ext@, string_views(files@)) is None,
        },
{
    let ghost all = views(bases@);
    let ghost fs = string_views(files@);
    let deps = join_exec(dir, chars_of("deps").as_slice());
    let mut i: usize = 0;
    assert(all.subrange(0, all.len() as int) =~= all);
    while i < bases.len()
        invariant
            i <= bases@.len(),
            all == views(bases@),
            fs == string_views(files@),
            deps@ == join(dir@, "deps"@),
            find_artifact(dir@, all, ext@, fs) == find_artifact(
                dir@,
                all.subrange(i as int, all.len() as int),
                ext@,
                fs,
            ),
        decreases bases@.len() - i,
    {
        let ghost rest = all.subrange(i as int, all.len() as int);
        assert(rest[0] == bases@[i as int]@);
        assert(rest.drop_first() =~= all.subrange(i + 1, all.len() as int));
        let plain = dotted_exec(bases[i].as_slice(), ext);
        let prefixed = dotted_exec(concat(chars_of("lib").as_slice(), bases[i].as_slice()).as_slice(), ext);
        let c0 = join_exec(dir, plain.as_slice());
        let c1 = join_exec(deps.as_slice(), plain.as_slice());
        let c2 = join_exec(dir, prefixed.as_slice());
        let c3 = join_exec(deps.as_slice(), prefixed.as_slice());
        let ghost cands = artifact_candidates(dir@, bases@[i as int]@, ext@);
        assert(cands =~= seq![c0@, c1@, c2@, c3@]);
        assert(cands.drop_first() =~= seq![c1@, c2@, c3@]);
        assert(cands.drop_first().drop_first() =~= seq![c2@, c3@]);
        assert(cands.drop_first().drop_first().drop_first() =~= seq![c3@]);
        assert(cands.drop_first().drop_first().drop_first().drop_first() =~= Seq::<Seq<char>>::empty());
        let l0 = listed_exec(files, c0.as_slice());
        let l1 = listed_exec(files, c1.as_slice());
        let l2 = listed_exec(files, c2.as_slice());
        let l3 = listed_exec(files, c3.as_slice());
        proof {
            let d1 = cands.drop_first();
            let d2 = d1.drop_first();
            let d3 = d2.drop_first();
            let d4 = d3.drop_first();
            assert(first_listed(d4, fs) is None);
            assert(first_listed(d3, fs) == if l3 { Some(c3@) } else { None::<Seq<char>> });
            assert(first_listed(d2, fs) == if l2 { Some(c2@) } else { first_listed(d3, fs) });
            assert(first_listed(d1, fs) == if l1 { Some(c1@) } else { first_listed(d2, fs) });
            assert(first_listed(cands, fs) == if l0 { Some(c0@) } else { first_listed(d1, fs) });
        }
        if l0 {
            return Some(c0);
        }
        if l1 {
            return Some(c1);
        }
        if l2 {
            return Some(c2);
        }
        if l3 {
            return Some(c3);
        }
        i = i + 1;
    }
    None
}

fn library_table_exec() -> (r: Vec<(Vec<Vec<char>>, Vec<char>, bool)>)
    ensures
        r@.len() == 7,
        forall|k: int|
            0 <= k < 7 ==> (views(#[trigger] r@[k].0@), r@[k].1@, r@[k].2) == library_table()[k],
{
    let mut r: Vec<(Vec<Vec<char>>, Vec<char>, bool)> = Vec::new();
    r.push((vec![chars_of("bitshit_llama"), chars_of("cluaiz_llama")], chars_of("bitshit-llama"), false));
    r.push((vec![chars_of("bitshit_onnx"), chars_of("cluaiz_onnx")], chars_of("bitshit-onnx"), false));
    r.push((vec![chars_of("onnxruntime")], chars_of("onnxruntime"), true));
    r.push(
        (
            vec![chars_of("onnxruntime_providers_shared")],
            chars_of("onnxruntime_providers_shared"),
            true,
        ),
    );
    r.push(
        (
            vec![chars_of("onnxruntime_providers_cuda")],
            chars_of("onnxruntime_providers_cuda"),
            true,
        ),
    );
    r.push(
        (
            vec![chars_of("onnxruntime_providers_tensorrt")],
            chars_of("onnxruntime_providers_tensorrt"),
            true,
        ),
    );
    r.push(
        (
            vec![chars_of("onnxruntime_providers_nv_tensorrt_rtx")],
            chars_of("onnxruntime_providers_nv_tensorrt_rtx"),
            true,
        ),
    );
    assert forall|k: int| 0 <= k < 7 implies (views(#[trigger] r@[k].0@), r@[k].1@, r@[k].2)
        == library_table()[k] by {
        assert(views(r@[k].0@) =~= library_table()[k].0);
    }
    r
}

fn library_selected_exec(
    target: &[char],
    driver: Option<&str>,
    sources: &Vec<Vec<char>>,
    dest: &[char],
) -> (r: bool)
    ensures
        r == library_selected(
            target@,
            match driver {
                Some(d) => Some(d@),
                None => None,
            },
            views(sources@),
            dest@,
        ),
{
    match driver {
        None => true,
        Some(d) => {
            let req = chars_of(d);
            if !chars_eq(target, chars_of("driver").as_slice()) {
                return true;
            }
            if contains_exec(dest, req.as_slice()) {
                return true;
            }
            let ghost srcs = views(sources@);
            let mut i: usize = 0;
            while i < sources.len()
                invariant
                    i <= sources@.len(),
                    srcs == views(sources@),
                    req@ == d@,
                    driver == Some(d),
                    forall|k: int| 0 <= k < i ==> !contains_seq(#[trigger] srcs[k], d@),
                decreases sources@.len() - i,
            {
                if contains_exec(sources[i].as_slice(), req.as_slice()) {
                    assert(contains_seq(srcs[i as int], d@));
                    assert(exists|k: int| 0 <= k < srcs.len() && contains_seq(srcs[k], d@));
                    return true;
                }
                i = i + 1;
            }
            false
        },
    }
}

fn push_action(out: &mut Vec<DevSyncAction>, a: DevSyncAction)
    ensures
        action_views(final(out)@) == action_views(old(out)@).push(a@),
{
    let ghost before = action_views(out@);
    out.push(a);
    assert(action_views(out@) =~= before.push(a@));
}

/// Plans the copies of workspace build artifacts into the runtime tree at
/// `hub_path`: the engine, the native libraries (only those naming
/// `driver_name` when the target is `driver`), the executable and the
/// workspace runtime data; markers record `version`.
#[verifier::spinoff_prover]
#[verifier::rlimit(40)]
pub fn sync_dev_artifacts(
    target: &str,
    driver_name: Option<&str>,
    hub_path: &str,
    profile: &str,
    host: HostOs,
    version: &str,
    probe: &DevSyncProbe,
) -> (r: Vec<DevSyncAction>)
    ensures
        action_views(r@) == dev_sync_plan(
            target@,
            match driver_name {
                Some(d) => Some(d@),
                None => None,
            },
            hub_path@,
            profile@,
            host,
            version@,
            probe.root@,
            string_views(probe.files@),
            string_views(probe.dirs@),
            probe.runtime_exists,
            probe.legacy_runtime_exists,
        ),
{
    let ghost files = string_views(probe.files@);
    let ghost dirs = string_views(probe.dirs@);
    let t = chars_of(target);
    let hub = chars_of(hub_path);
    let root = chars_of(probe.root.as_str());
    let ext_s = dynamic_library_extension(host);
    let ext = chars_of(ext_s.as_str());
    let rel = chars_eq(chars_of(profile).as_slice(), chars_of("release").as_slice());
    let target_dir = join_exec(root.as_slice(), chars_of("target").as_slice());
    let dir = if rel {
        join_exec(target_dir.as_slice(), chars_of("release").as_slice())
    } else {
        join_exec(target_dir.as_slice(), chars_of("debug").as_slice())
    };
    let engine = join_exec(hub.as_slice(), chars_of("engine").as_slice());
    let core = chars_eq(t.as_slice(), chars_of("all").as_slice()) || chars_eq(
        t.as_slice(),
        chars_of("core").as_slice(),
    );
    let mut out: Vec<DevSyncAction> = Vec::new();
    assert(action_views(out@) =~= Seq::<DevStep>::empty());
    // The engine.
    if core {
        let bases = vec![chars_of("engines")];
        assert(views(bases@) =~= seq!["engines"@]);
        match find_artifact_exec(dir.as_slice(), &bases, ext.as_slice(), &probe.files) {
            Some(src) => {
                let to = join_exec(engine.as_slice(), dotted_exec(chars_of("bitshit-engine").as_slice(), ext.as_slice()).as_slice());
                let marker = join_exec(engine.as_slice(), chars_of("bitshit-engine.ready").as_slice());
                push_action(&mut out, DevSyncAction::CopyArtifact { from: string_of(src.as_slice()), to: string_of(to.as_slice()) });
                push_action(&mut out, DevSyncAction::WriteMarker { path: string_of(marker.as_slice()), contents: string_of(chars_of(version).as_slice()) });
            },
            None => {},
        }
    }
    let ghost dv = match driver_name {
        Some(d) => Some(d@),
        None => None,
    };
    assert(action_views(out@) == engine_steps(dir@, hub@, ext@, version@, target@, files));
    // The native libraries.
    let ghost head = action_views(out@);
    if !chars_eq(t.as_slice(), chars_of("core").as_slice()) {
        let table = library_table_exec();
        let drivers = join_exec(engine.as_slice(), chars_of("drivers").as_slice());
        let mut i: usize = 0;
        while i < 7
            invariant
                i <= 7,
                table@.len() == 7,
                forall|k: int|
                    0 <= k < 7 ==> (views(#[trigger] table@[k].0@), table@[k].1@, table@[k].2)
                        == library_table()[k],
                files == string_views(probe.files@),
                t@ == target@,
                ext@ == library_extension_of(host),
                engine@ == engine_dir_of(hub@),
                drivers@ == join(engine_dir_of(hub@), "drivers"@),
                dv == match driver_name {
                    Some(d) => Some(d@),
                    None => None,
                },
                action_views(out@) == head + libraries_steps(
                    dir@,
                    hub@,
                    ext@,
                    version@,
                    target@,
                    dv,
                    files,
                    i as nat,
                ),
            decreases 7 - i,
        {
            let ghost entry = library_table()[i as int];
            assert((views(table@[i as int].0@), table@[i as int].1@, table@[i as int].2) == entry);
            let ghost mid = action_views(out@);
            let (sources, dest, runtime) = (&table[i].0, &table[i].1, table[i].2);
            let selected = library_selected_exec(t.as_slice(), driver_name, sources, dest.as_slice());
            assert(selected == library_selected(target@, dv, entry.0, entry.1));
            if selected {
                match find_artifact_exec(dir.as_slice(), sources, ext.as_slice(), &probe.files) {
                    Some(src) => {
                        let file = dotted_exec(dest.as_slice(), ext.as_slice());
                        if runtime {
                            let to = join_exec(drivers.as_slice(), file.as_slice());
                            push_action(&mut out, DevSyncAction::CopyArtifact { from: string_of(src.as_slice()), to: string_of(to.as_slice()) });
                        } else {
                            let to = join_exec(engine.as_slice(), file.as_slice());
                            let marker = join_exec(engine.as_slice(), concat(dest.as_slice(), chars_of(".ready").as_slice()).as_slice());
                            push_action(&mut out, DevSyncAction::CopyArtifact { from: string_of(src.as_slice()), to: string_of(to.as_slice()) });
                            push_action(&mut out, DevSyncAction::WriteMarker { path: string_of(marker.as_slice()), contents: string_of(chars_of(version).as_slice()) });
                        }
                    },
                    None => {},
                }
            }
            assert(action_views(out@) =~= mid + library_steps(dir@, hub@, ext@, version@, target@, dv, files, entry));
            i = i + 1;
        }
    }
    assert(action_views(out@) =~= engine_steps(dir@, hub@, ext@, version@, target@, files) + (if target@ != "core"@ {
        libraries_steps(dir@, hub@, ext@, version@, target@, dv, files, 7)
    } else {
        Seq::empty()
    }));
    let ghost head2 = action_views(out@);
    // The executable and the workspace runtime data.
    if core {
        let exe = if host == HostOs::Windows {
            chars_of("bitshit.exe")
        } else {
            chars_of("bitshit")
        };
        let src = join_exec(dir.as_slice(), exe.as_slice());
        if listed_exec(&probe.files, src.as_slice()) {
            let to = join_exec(join_exec(hub.as_slice(), chars_of("bin").as_slice()).as_slice(), exe.as_slice());
            push_action(&mut out, DevSyncAction::CopyArtifact { from: string_of(src.as_slice()), to: string_of(to.as_slice()) });
        }
        let ghost head3 = action_views(out@);
        let fresh = join_exec(root.as_slice(), chars_of(".1bitshit").as_slice());
        let legacy = join_exec(root.as_slice(), chars_of(".cluaiz").as_slice());
        let source = if probe.runtime_exists {
            Some(fresh)
        } else if probe.legacy_runtime_exists {
            Some(legacy)
        } else {
            None
        };
        match source {
            Some(s) => {
                copy_runtime_folders(&mut out, s.as_slice(), hub.as_slice(), probe);
            },
            None => {},
        }
        assert(action_views(out@) =~= head2 + tail_steps(root@, dir@, hub@, host, target@, files, dirs, probe.runtime_exists, probe.legacy_runtime_exists));
    }
    out
}

fn copy_runtime_folders(out: &mut Vec<DevSyncAction>, source: &[char], hub: &[char], probe: &DevSyncProbe)
    ensures
        action_views(final(out)@) == action_views(old(out)@) + folder_copies(
            source@,
            hub@,
            runtime_folders(),
            string_views(probe.files@) + string_views(probe.dirs@),
            5,
        ),
{
    let folders = vec![chars_of("brain"), chars_of("skills"), chars_of("extensions"), chars_of("plugins"), chars_of("mcp")];
    assert(views(folders@) =~= runtime_folders());
    let ghost start = action_views(out@);
    let ghost present = string_views(probe.files@) + string_views(probe.dirs@);
    let mut i: usize = 0;
    while i < 5
        invariant
            i <= 5,
            folders@.len() == 5,
            views(folders@) == runtime_folders(),
            present == string_views(probe.files@) + string_views(probe.dirs@),
            action_views(out@) == start + folder_copies(source@, hub@, runtime_folders(), present, i as nat),
        decreases 5 - i,
    {
        assert(views(folders@)[i as int] == folders@[i as int]@);
        let s = join_exec(source, folders[i].as_slice());
        let ghost mid = action_views(out@);
        if listed_either(&probe.files, &probe.dirs, s.as_slice()) {
            let to = join_exec(hub, folders[i].as_slice());
            push_action(out, DevSyncAction::CopyTree { from: string_of(s.as_slice()), to: string_of(to.as_slice()) });
        }
        i = i + 1;
    }
}

// ---------------------------------------------------------------------------
// Legacy runtime import
// ---------------------------------------------------------------------------

/// The folders imported from a legacy runtime tree.
pub open spec fn legacy_folders() -> Seq<Seq<char>> {
    seq![
        "engine"@,
        "models"@,
        "brain"@,
        "skills"@,
        "extensions"@,
        "plugins"@,
        "mcp"@,
        "kv_cache"@,
        "reports"@,
    ]
}

/// The text of the marker that records a finished import.
pub open spec fn legacy_marker_text() -> Seq<char> {
    "Legacy data imported by 1BitShit CPU. The previous runtime was not executed or deleted.\n"@
}

/// The import of a legacy tree: the directory to create, the tree copies,
/// and the marker to write.
pub struct LegacyImport {
    pub destination: String,
    pub copies: Vec<DevSyncAction>,
    pub marker: String,
    pub marker_text: String,
}

/// Whether an installed environment imports the legacy tree below `home`:
/// the legacy tree is a directory, no import was recorded, and it is not the
/// active tree itself.
pub open spec fn imports_legacy(
    mode: EnvironmentMode,
    home: Option<Seq<char>>,
    global: Seq<char>,
    legacy_is_dir: bool,
    marker_exists: bool,
) -> bool {
    &&& mode == EnvironmentMode::Installed
    &&& home is Some
    &&& legacy_is_dir
    &&& !marker_exists
    &&& components(join(home->0, ".cluaiz"@)) != components(global)
}

/// Plans the one-time import of the legacy `.cluaiz` tree below `home_dir`
/// into the active installed tree, or `None` when nothing is imported.
/// `existing` lists the paths that exist.
pub fn legacy_import_plan(
    environment: &EnvironmentManager,
    home_dir: Option<&str>,
    legacy_is_dir: bool,
    marker_exists: bool,
    existing: &Vec<String>,
) -> (r: Option<LegacyImport>)
    ensures
        match home_dir {
            Some(h) => {
                let legacy = join(h@, ".cluaiz"@);
                match r {
                    Some(p) => imports_legacy(environment.mode, Some(h@), environment.global_dir@, legacy_is_dir, marker_exists)
                        && p.destination@ == environment.global_dir@
                        && p.marker@ == join(environment.global_dir@, ".legacy-cluaiz-import-complete"@)
                        && p.marker_text@ == legacy_marker_text()
                        && action_views(p.copies@) == folder_copies(
                            legacy,
                            environment.global_dir@,
                            legacy_folders(),
                            string_views(existing@),
                            9,
                        ),
                    None => !imports_legacy(environment.mode, Some(h@), environment.global_dir@, legacy_is_dir, marker_exists),
                }
            },
            None => r is None,
        },
{
    if environment.mode != EnvironmentMode::Installed {
        return None;
    }
    let h = match home_dir {
        Some(h) => h,
        None => {
            return None;
        },
    };
    let legacy = join_exec(chars_of(h).as_slice(), chars_of(".cluaiz").as_slice());
    let dest = chars_of(environment.global_dir.as_str());
    let a = components_exec(legacy.as_slice());
    let b = components_exec(dest.as_slice());
    if !legacy_is_dir || marker_exists || component_lists_eq(a.as_slice(), b.as_slice()) {
        return None;
    }
    let folders = vec![
        chars_of("engine"),
        chars_of("models"),
        chars_of("brain"),
        chars_of("skills"),
        chars_of("extensions"),
        chars_of("plugins"),
        chars_of("mcp"),
        chars_of("kv_cache"),
        chars_of("reports"),
    ];
    assert(views(folders@) =~= legacy_folders());
    let mut copies: Vec<DevSyncAction> = Vec::new();
    assert(action_views(copies@) =~= Seq::<DevStep>::empty());
    let ghost present = string_views(existing@);
    let mut i: usize = 0;
    while i < 9
        invariant
            i <= 9,
            folders@.len() == 9,
            views(folders@) == legacy_folders(),
            present == string_views(existing@),
            action_views(copies@) == folder_copies(legacy@, dest@, legacy_folders(), present, i as nat),
        decreases 9 - i,
    {
        assert(views(folders@)[i as int] == folders@[i as int]@);
        let s = join_exec(legacy.as_slice(), folders[i].as_slice());
        if listed_exec(existing, s.as_slice()) {
            let to = join_exec(dest.as_slice(), folders[i].as_slice());
            push_action(&mut copies, DevSyncAction::CopyTree { from: string_of(s.as_slice()), to: string_of(to.as_slice()) });
        }
        i = i + 1;
    }
    let marker = join_exec(dest.as_slice(), chars_of(".legacy-cluaiz-import-complete").as_slice());
    Some(LegacyImport {
        destination: string_of(dest.as_slice()),
        copies,
        marker: string_of(marker.as_slice()),
        marker_text: string_of(
            chars_of(
                "Legacy data imported by 1BitShit CPU. The previous runtime was not executed or deleted.\n",
            ).as_slice(),
        ),
    })
}

/// Once the import marker exists, the legacy tree is never imported again.
pub proof fn law_legacy_import_runs_once(
    mode: EnvironmentMode,
    home: Option<Seq<char>>,
    global: Seq<char>,
    legacy_is_dir: bool,
)
    ensures
        !imports_legacy(mode, home, global, legacy_is_dir, true),
{
}

/// A step that copies one of `folders` from below `source` to the same
/// folder below `dest`.
pub open spec fn is_folder_copy(step: DevStep, source: Seq<char>, dest: Seq<char>, folders: Seq<Seq<char>>) -> bool {
    exists|f: Seq<char>| folders.contains(f) && step == DevStep::Tree(join(source, f), join(dest, f))
}

/// The tree steps only copy folders from below the source into the same
/// folders below the destination: nothing is deleted or moved.
pub proof fn law_folder_copies_only_copy(
    source: Seq<char>,
    dest: Seq<char>,
    folders: Seq<Seq<char>>,
    present: Seq<Seq<char>>,
    n: nat,
)
    ensures
        forall|k: int|
            0 <= k < folder_copies(source, dest, folders, present, n).len() ==> is_folder_copy(
                #[trigger] folder_copies(source, dest, folders, present, n)[k],
                source,
                dest,
                folders,
            ),
    decreases n,
{
    if n > 0 && n <= folders.len() {
        law_folder_copies_only_copy(source, dest, folders, present, (n - 1) as nat);
        let rest = folder_copies(source, dest, folders, present, (n - 1) as nat);
        let all = folder_copies(source, dest, folders, present, n);
        assert forall|k: int| 0 <= k < all.len() implies is_folder_copy(#[trigger] all[k], source, dest, folders) by {
            if k < rest.len() {
                assert(all[k] == rest[k]);
            } else {
                let f = folders[n - 1];
                assert(folders.contains(f));
                assert(all[k] == DevStep::Tree(join(source, f), join(dest, f)));
            }
        }
    }
}

/// The path a step writes to.
pub open spec fn step_target(step: DevStep) -> Seq<char> {
    match step {
        DevStep::Copy(_, t) => t,
        DevStep::Marker(p, _) => p,
        DevStep::Tree(_, t) => t,
    }
}

/// A path in the runtime tree at `hub`: directly in its engine, drivers or
/// binary directory, or directly below the tree itself.
pub open spec fn in_runtime_tree(hub: Seq<char>, t: Seq<char>) -> bool {
    exists|n: Seq<char>|
        #![trigger join(engine_dir_of(hub), n)]
        #![trigger join(join(engine_dir_of(hub), "drivers"@), n)]
        #![trigger join(join(hub, "bin"@), n)]
        #![trigger join(hub, n)]
        t == join(engine_dir_of(hub), n) || t == join(join(engine_dir_of(hub), "drivers"@), n) || t
            == join(join(hub, "bin"@), n) || t == join(hub, n)
}

pub open spec fn all_in_runtime_tree(hub: Seq<char>, steps: Seq<DevStep>) -> bool {
    forall|k: int| 0 <= k < steps.len() ==> in_runtime_tree(hub, step_target(#[trigger] steps[k]))
}

proof fn lemma_concat_in_tree(hub: Seq<char>, a: Seq<DevStep>, b: Seq<DevStep>)
    requires
        all_in_runtime_tree(hub, a),
        all_in_runtime_tree(hub, b),
    ensures
        all_in_runtime_tree(hub, a + b),
{
    assert forall|k: int| 0 <= k < (a + b).len() implies in_runtime_tree(hub, step_target(#[trigger] (a + b)[k])) by {
        if k < a.len() {
            assert((a + b)[k] == a[k]);
        } else {
            assert((a + b)[k] == b[k - a.len()]);
        }
    }
}

proof fn lemma_libraries_in_tree(
    dir: Seq<char>,
    hub: Seq<char>,
    ext: Seq<char>,
    version: Seq<char>,
    target: Seq<char>,
    driver: Option<Seq<char>>,
    files: Seq<Seq<char>>,
    n: nat,
)
    ensures
        all_in_runtime_tree(hub, libraries_steps(dir, hub, ext, version, target, driver, files, n)),
    decreases n,
{
    if n > 0 {
        lemma_libraries_in_tree(dir, hub, ext, version, target, driver, files, (n - 1) as nat);
        let entry = library_table()[n - 1];
        let one = library_steps(dir, hub, ext, version, target, driver, files, entry);
        assert(all_in_runtime_tree(hub, one)) by {
            assert forall|k: int| 0 <= k < one.len() implies in_runtime_tree(hub, step_target(#[trigger] one[k])) by {
                if entry.2 {
                    let n1 = dotted(entry.1, ext);
                    assert(step_target(one[k]) == join(join(engine_dir_of(hub), "drivers"@), n1));
                } else if k == 0 {
                    let n1 = dotted(entry.1, ext);
                    assert(step_target(one[k]) == join(engine_dir_of(hub), n1));
                } else {
                    let n1 = entry.1 + ".ready"@;
                    assert(step_target(one[k]) == join(engine_dir_of(hub), n1));
                }
            }
        }
        lemma_concat_in_tree(hub, libraries_steps(dir, hub, ext, version, target, driver, files, (n - 1) as nat), one);
    }
}

proof fn lemma_folder_copies_in_tree(source: Seq<char>, hub: Seq<char>, folders: Seq<Seq<char>>, present: Seq<Seq<char>>, n: nat)
    ensures
        all_in_runtime_tree(hub, folder_copies(source, hub, folders, present, n)),
    decreases n,
{
    if n > 0 && n <= folders.len() {
        lemma_folder_copies_in_tree(source, hub, folders, present, (n - 1) as nat);
        let rest = folder_copies(source, hub, folders, present, (n - 1) as nat);
        let all = folder_copies(source, hub, folders, present, n);
        assert forall|k: int| 0 <= k < all.len() implies in_runtime_tree(hub, step_target(#[trigger] all[k])) by {
            if k < rest.len() {
                assert(all[k] == rest[k]);
            } else {
                assert(step_target(all[k]) == join(hub, folders[n - 1]));
            }
        }
    }
}

/// A development sync writes only inside the runtime tree it installs into:
/// its engine, drivers and binary directories and its data folders.
pub proof fn law_dev_sync_writes_inside_runtime_tree(
    target: Seq<char>,
    driver: Option<Seq<char>>,
    hub: Seq<char>,
    profile: Seq<char>,
    host: HostOs,
    version: Seq<char>,
    root: Seq<char>,
    files: Seq<Seq<char>>,
    dirs: Seq<Seq<char>>,
    fresh_exists: bool,
    legacy_exists: bool,
)
    ensures
        forall|k: int|
            0 <= k < dev_sync_plan(target, driver, hub, profile, host, version, root, files, dirs, fresh_exists, legacy_exists).len()
                ==> in_runtime_tree(
                hub,
                step_target(#[trigger] dev_sync_plan(target, driver, hub, profile, host, version, root, files, dirs, fresh_exists, legacy_exists)[k]),
            ),
{
    let dir = build_dir(root, profile);
    let ext = library_extension_of(host);
    let e = engine_steps(dir, hub, ext, version, target, files);
    assert(all_in_runtime_tree(hub, e)) by {
        assert forall|k: int| 0 <= k < e.len() implies in_runtime_tree(hub, step_target(#[trigger] e[k])) by {
            if k == 0 {
                assert(step_target(e[k]) == join(engine_dir_of(hub), dotted("bitshit-engine"@, ext)));
            } else {
                assert(step_target(e[k]) == join(engine_dir_of(hub), "bitshit-engine.ready"@));
            }
        }
    }
    let l = if target != "core"@ {
        libraries_steps(dir, hub, ext, version, target, driver, files, 7)
    } else {
        Seq::empty()
    };
    lemma_libraries_in_tree(dir, hub, ext, version, target, driver, files, 7);
    let t = tail_steps(root, dir, hub, host, target, files, dirs, fresh_exists, legacy_exists);
    assert(all_in_runtime_tree(hub, t)) by {
        if is_core_target(target) {
            let exe = executable_name(host);
            let src = join(dir, exe);
            let copy_exe = if files.contains(src) {
                seq![DevStep::Copy(src, join(join(hub, "bin"@), exe))]
            } else {
                Seq::empty()
            };
            assert(all_in_runtime_tree(hub, copy_exe)) by {
                assert forall|k: int| 0 <= k < copy_exe.len() implies in_runtime_tree(hub, step_target(#[trigger] copy_exe[k])) by {
                    assert(step_target(copy_exe[k]) == join(join(hub, "bin"@), exe));
                }
            }
            lemma_folder_copies_in_tree(runtime_source(root, fresh_exists), hub, runtime_folders(), files + dirs, 5);
            let data = if fresh_exists || legacy_exists {
                folder_copies(runtime_source(root, fresh_exists), hub, runtime_folders(), files + dirs, 5)
            } else {
                Seq::empty()
            };
            assert(all_in_runtime_tree(hub, data));
            lemma_concat_in_tree(hub, copy_exe, data);
        }
    }
    assert(all_in_runtime_tree(hub, l));
    lemma_concat_in_tree(hub, e, l);
    lemma_concat_in_tree(hub, e + l, t);
}

/// Every tree copy of the steps copies one of the runtime folders from
/// below `source` to the same folder below `hub`.
pub open spec fn tree_steps_from(steps: Seq<DevStep>, source: Seq<char>, hub: Seq<char>) -> bool {
    forall|k: int|
        0 <= k < steps.len() && (#[trigger] steps[k]) is Tree ==> is_folder_copy(
            steps[k],
            source,
            hub,
            runtime_folders(),
        )
}

proof fn lemma_tree_steps_concat(a: Seq<DevStep>, b: Seq<DevStep>, source: Seq<char>, hub: Seq<char>)
    requires
        tree_steps_from(a, source, hub),
        tree_steps_from(b, source, hub),
    ensures
        tree_steps_from(a + b, source, hub),
{
    assert forall|k: int| 0 <= k < (a + b).len() && (#[trigger] (a + b)[k]) is Tree implies is_folder_copy(
        (a + b)[k],
        source,
        hub,
        runtime_folders(),
    ) by {
        if k < a.len() {
            assert((a + b)[k] == a[k]);
        } else {
            assert((a + b)[k] == b[k - a.len()]);
        }
    }
}

/// A development sync copies data folders from one workspace tree only:
/// `.1bitshit` when it exists, and the legacy `.cluaiz` only when
/// `.1bitshit` does not exist; when neither exists, no folder is copied.
pub proof fn law_dev_sync_reads_legacy_only_without_runtime(
    target: Seq<char>,
    driver: Option<Seq<char>>,
    hub: Seq<char>,
    profile: Seq<char>,
    host: HostOs,
    version: Seq<char>,
    root: Seq<char>,
    files: Seq<Seq<char>>,
    dirs: Seq<Seq<char>>,
    fresh_exists: bool,
    legacy_exists: bool,
)
    ensures
        tree_steps_from(
            dev_sync_plan(target, driver, hub, profile, host, version, root, files, dirs, fresh_exists, legacy_exists),
            runtime_source(root, fresh_exists),
            hub,
        ),
        !fresh_exists && !legacy_exists ==> forall|k: int|
            0 <= k < dev_sync_plan(target, driver, hub, profile, host, version, root, files, dirs, fresh_exists, legacy_exists).len()
                ==> !(#[trigger] dev_sync_plan(target, driver, hub, profile, host, version, root, files, dirs, fresh_exists, legacy_exists)[k] is Tree),
{
    let source = runtime_source(root, fresh_exists);
    let dir = build_dir(root, profile);
    let ext = library_extension_of(host);
    let e = engine_steps(dir, hub, ext, version, target, files);
    assert(forall|k: int| 0 <= k < e.len() ==> !(#[trigger] e[k] is Tree));
    let l = if target != "core"@ {
        libraries_steps(dir, hub, ext, version, target, driver, files, 7)
    } else {
        Seq::empty()
    };
    lemma_libraries_no_tree_all(dir, hub, ext, version, target, driver, files, 7);
    assert(forall|k: int| 0 <= k < l.len() ==> !(#[trigger] l[k] is Tree));
    assert(tree_steps_from(l, source, hub));
    let t = tail_steps(root, dir, hub, host, target, files, dirs, fresh_exists, legacy_exists);
    if is_core_target(target) {
        let exe = executable_name(host);
        let src = join(dir, exe);
        let copy_exe = if files.contains(src) {
            seq![DevStep::Copy(src, join(join(hub, "bin"@), exe))]
        } else {
            Seq::empty()
        };
        let data = if fresh_exists || legacy_exists {
            folder_copies(source, hub, runtime_folders(), files + dirs, 5)
        } else {
            Seq::empty()
        };
        law_folder_copies_only_copy(source, hub, runtime_folders(), files + dirs, 5);
        assert(tree_steps_from(copy_exe, source, hub));
        assert(tree_steps_from(data, source, hub));
        lemma_tree_steps_concat(copy_exe, data, source, hub);
        assert(t == copy_exe + data);
        if !fresh_exists && !legacy_exists {
            assert(t == copy_exe);
        }
    }
    assert(tree_steps_from(e, source, hub));
    lemma_tree_steps_concat(e, l, source, hub);
    lemma_tree_steps_concat(e + l, t, source, hub);
    let plan = dev_sync_plan(target, driver, hub, profile, host, version, root, files, dirs, fresh_exists, legacy_exists);
    assert(plan == e + l + t);
    if !fresh_exists && !legacy_exists {
        assert forall|k: int| 0 <= k < plan.len() implies !(#[trigger] plan[k] is Tree) by {
            if k < e.len() {
                assert(plan[k] == e[k]);
            } else if k < e.len() + l.len() {
                assert(plan[k] == l[k - e.len()]);
            } else {
                assert(plan[k] == t[k - e.len() - l.len()]);
            }
        }
    }
}

proof fn lemma_libraries_no_tree_all(
    dir: Seq<char>,
    hub: Seq<char>,
    ext: Seq<char>,
    version: Seq<char>,
    target: Seq<char>,
    driver: Option<Seq<char>>,
    files: Seq<Seq<char>>,
    n: nat,
)
    ensures
        forall|k: int|
            0 <= k < libraries_steps(dir, hub, ext, version, target, driver, files, n).len() ==> !(
            #[trigger] libraries_steps(dir, hub, ext, version, target, driver, files, n)[k] is Tree),
    decreases n,
{
    if n > 0 {
        lemma_libraries_no_tree_all(dir, hub, ext, version, target, driver, files, (n - 1) as nat);
        let rest = libraries_steps(dir, hub, ext, version, target, driver, files, (n - 1) as nat);
        let one = library_steps(dir, hub, ext, version, target, driver, files, library_table()[n - 1]);
        let all = libraries_steps(dir, hub, ext, version, target, driver, files, n);
        assert forall|k: int| 0 <= k < all.len() implies !(#[trigger] all[k] is Tree) by {
            if k < rest.len() {
                assert(all[k] == rest[k]);
            } else {
                assert(all[k] == one[k - rest.len()]);
            }
        }
    }
}

// ---------------------------------------------------------------------------
// Copying a tree without overwriting
// ---------------------------------------------------------------------------

/// The files of a tree that a copy writes: those of `relative` (the files
/// below the source, by their paths relative to it) whose destination path
/// is not among `existing` (the relative paths that already exist below the
/// destination), in listing order.
pub open spec fn missing_files(relative: Seq<Seq<char>>, existing: Seq<Seq<char>>) -> Seq<Seq<char>>
    decreases relative.len(),
{
    if relative.len() == 0 {
        Seq::empty()
    } else {
        let rest = missing_files(relative.drop_last(), existing);
        if existing.contains(relative.last()) {
            rest
        } else {
            rest.push(relative.last())
        }
    }
}

/// The file copies of a tree copy, as (source path, destination path).
pub open spec fn tree_copies(
    from: Seq<char>,
    to: Seq<char>,
    relative: Seq<Seq<char>>,
    existing: Seq<Seq<char>>,
) -> Seq<(Seq<char>, Seq<char>)> {
    missing_files(relative, existing).map_values(|r: Seq<char>| (join(from, r), join(to, r)))
}

pub open spec fn pair_views(v: Seq<(String, String)>) -> Seq<(Seq<char>, Seq<char>)> {
    v.map_values(|p: (String, String)| (p.0@, p.1@))
}

/// The file copies of copying the tree at `from` to `to`, keeping every
/// file that already exists there. `relative` lists the files below `from`
/// by their relative paths; `existing` lists the relative paths that exist
/// below `to`.
pub fn tree_copy_plan(from: &str, to: &str, relative: &Vec<String>, existing: &Vec<String>) -> (r: Vec<
    (String, String),
>)
    ensures
        pair_views(r@) == tree_copies(from@, to@, string_views(relative@), string_views(existing@)),
{
    let f = chars_of(from);
    let t = chars_of(to);
    let ghost rel = string_views(relative@);
    let ghost ex = string_views(existing@);
    let mut out: Vec<(String, String)> = Vec::new();
    let mut i: usize = 0;
    while i < relative.len()
        invariant
            i <= relative@.len(),
            rel == string_views(relative@),
            ex == string_views(existing@),
            f@ == from@,
            t@ == to@,
            pair_views(out@) == tree_copies(from@, to@, rel.subrange(0, i as int), ex),
        decreases relative@.len() - i,
    {
        let ghost pre = rel.subrange(0, i + 1);
        assert(pre.drop_last() =~= rel.subrange(0, i as int));
        assert(pre.last() == relative@[i as int]@);
        let r = chars_of(relative[i].as_str());
        if !listed_exec(existing, r.as_slice()) {
            let ghost before = pair_views(out@);
            let a = join_exec(f.as_slice(), r.as_slice());
            let b = join_exec(t.as_slice(), r.as_slice());
            out.push((string_of(a.as_slice()), string_of(b.as_slice())));
            assert(pair_views(out@) =~= before.push((a@, b@)));
            assert(tree_copies(from@, to@, pre, ex) =~= tree_copies(from@, to@, rel.subrange(0, i as int), ex).push(
                (a@, b@),
            ));
        } else {
            assert(tree_copies(from@, to@, pre, ex) =~= tree_copies(from@, to@, rel.subrange(0, i as int), ex));
        }
        i = i + 1;
    }
    assert(rel.subrange(0, rel.len() as int) =~= rel);
    out
}

proof fn lemma_missing_files_props(relative: Seq<Seq<char>>, existing: Seq<Seq<char>>)
    ensures
        forall|k: int|
            0 <= k < missing_files(relative, existing).len() ==> !existing.contains(
                #[trigger] missing_files(relative, existing)[k],
            ) && relative.contains(missing_files(relative, existing)[k]),
        forall|r: Seq<char>|
            relative.contains(r) && !existing.contains(r) ==> #[trigger] missing_files(relative, existing).contains(r),
    decreases relative.len(),
{
    if relative.len() > 0 {
        let init = relative.drop_last();
        lemma_missing_files_props(init, existing);
        let rest = missing_files(init, existing);
        let m = missing_files(relative, existing);
        assert forall|k: int| 0 <= k < m.len() implies !existing.contains(#[trigger] m[k]) && relative.contains(m[k]) by {
            if k < rest.len() {
                assert(m[k] == rest[k]);
                let j = choose|j: int| 0 <= j < init.len() && init[j] == rest[k];
                assert(relative[j] == init[j]);
            } else {
                assert(m[k] == relative.last());
                assert(relative[relative.len() - 1] == relative.last());
            }
        }
        assert forall|r: Seq<char>| relative.contains(r) && !existing.contains(r) implies #[trigger] m.contains(r) by {
            let j = choose|j: int| 0 <= j < relative.len() && relative[j] == r;
            if j < relative.len() - 1 {
                assert(init[j] == r);
                assert(rest.contains(r));
                let k = choose|k: int| 0 <= k < rest.len() && rest[k] == r;
                assert(m[k] == r);
            } else {
                assert(m[m.len() - 1] == r);
            }
        }
    }
}

/// Copying a tree never overwrites a file: every file it writes was missing
/// at the destination and lies in the source; every missing file of the
/// source is written; and once the written files exist, copying the tree
/// again writes nothing.
pub proof fn law_tree_copy_keeps_existing_files(relative: Seq<Seq<char>>, existing: Seq<Seq<char>>)
    ensures
        forall|k: int|
            0 <= k < missing_files(relative, existing).len() ==> !existing.contains(
                #[trigger] missing_files(relative, existing)[k],
            ) && relative.contains(missing_files(relative, existing)[k]),
        forall|r: Seq<char>|
            relative.contains(r) && !existing.contains(r) ==> #[trigger] missing_files(relative, existing).contains(r),
        missing_files(relative, existing + missing_files(relative, existing)).len() == 0,
{
    lemma_missing_files_props(relative, existing);
    let m = missing_files(relative, existing);
    let e2 = existing + m;
    lemma_missing_files_props(relative, e2);
    let m2 = missing_files(relative, e2);
    if m2.len() > 0 {
        let r = m2[0];
        assert(!e2.contains(r) && relative.contains(r));
        if existing.contains(r) {
            let j = choose|j: int| 0 <= j < existing.len() && existing[j] == r;
            assert(e2[j] == r);
        } else {
            assert(m.contains(r));
            let k = choose|k: int| 0 <= k < m.len() && m[k] == r;
            assert(e2[existing.len() + k] == r);
        }
    }
}

} // verus!
