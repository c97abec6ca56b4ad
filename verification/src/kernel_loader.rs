//! Locating native kernel libraries: the file names a kernel may carry, the
//! order in which development and installed locations are searched, and the
//! path expected when none exists.
use vstd::prelude::*;
use crate::environment::opt_string_view;
use crate::paths::{join, join_exec};
use crate::text::{chars_eq, chars_of, concat3, string_of, string_views, strings_of, views};

verus! {

/// The operating system the runtime was built for.
#[derive(Debug, Clone, Copy, PartialEq, Eq, Structural)]
pub enum HostOs {
    Windows,
    Linux,
    Android,
    MacOs,
    Ios,
    Other,
}

/// The name under which an operating system is passed to the loader.
pub open spec fn os_label(h: HostOs) -> Seq<char> {
    match h {
        HostOs::Windows => "Windows"@,
        HostOs::Linux => "Linux"@,
        HostOs::Android => "Android"@,
        HostOs::MacOs => "macOS"@,
        HostOs::Ios => "iOS"@,
        HostOs::Other => "Unknown"@,
    }
}

pub fn os_label_exec(h: HostOs) -> (r: String)
    ensures
        r@ == os_label(h),
{
    match h {
        HostOs::Windows => string_of(chars_of("Windows").as_slice()),
        HostOs::Linux => string_of(chars_of("Linux").as_slice()),
        HostOs::Android => string_of(chars_of("Android").as_slice()),
        HostOs::MacOs => string_of(chars_of("macOS").as_slice()),
        HostOs::Ios => string_of(chars_of("iOS").as_slice()),
        HostOs::Other => string_of(chars_of("Unknown").as_slice()),
    }
}

/// The shared-library extension of an operating system name.
pub open spec fn extension_for_os(os: Seq<char>) -> Seq<char> {
    if os == "Windows"@ {
        "dll"@
    } else if os == "Linux"@ || os == "Android"@ {
        "so"@
    } else if os == "macOS"@ || os == "iOS"@ {
        "dylib"@
    } else {
        "bin"@
    }
}

pub fn extension_for_os_exec(os: &str) -> (r: Vec<char>)
    ensures
        r@ == extension_for_os(os@),
{
    let o = chars_of(os);
    if chars_eq(o.as_slice(), chars_of("Windows").as_slice()) {
        chars_of("dll")
    } else if chars_eq(o.as_slice(), chars_of("Linux").as_slice()) || chars_eq(
        o.as_slice(),
        chars_of("Android").as_slice(),
    ) {
        chars_of("so")
    } else if chars_eq(o.as_slice(), chars_of("macOS").as_slice()) || chars_eq(
        o.as_slice(),
        chars_of("iOS").as_slice(),
    ) {
        chars_of("dylib")
    } else {
        chars_of("bin")
    }
}

/// Prefixes of the accepted kernel file names: the current names first, then
/// the names of earlier releases, which are read but never written.
pub open spec fn candidate_prefixes() -> Seq<Seq<char>> {
    seq![
        "bitshit-"@,
        "bitshit_"@,
        "libbitshit_"@,
        "libbitshit-"@,
        "cluaiz-"@,
        "cluaiz_"@,
        "libcluaiz_"@,
        "libcluaiz-"@,
        "archer_"@,
        "archer-"@,
        "libarcher_"@,
    ]
}

pub open spec fn file_with_prefix(prefix: Seq<char>, kernel: Seq<char>, ext: Seq<char>) -> Seq<char> {
    prefix + kernel + seq!['.'] + ext
}

/// The accepted file names of a kernel, in search order.
pub open spec fn candidate_names(kernel: Seq<char>, ext: Seq<char>) -> Seq<Seq<char>> {
    candidate_prefixes().map_values(|p: Seq<char>| file_with_prefix(p, kernel, ext))
}

/// The file name a kernel is installed under on this host.
pub open spec fn primary_name(kernel: Seq<char>, ext: Seq<char>, host: HostOs) -> Seq<char> {
    if host == HostOs::Windows {
        file_with_prefix("bitshit-"@, kernel, ext)
    } else {
        file_with_prefix("libbitshit_"@, kernel, ext)
    }
}

/// For each name, `a/name` and then `b/name`.
pub open spec fn pair_paths(a: Seq<char>, b: Seq<char>, names: Seq<Seq<char>>) -> Seq<Seq<char>>
    decreases names.len(),
{
    if names.len() == 0 {
        Seq::empty()
    } else {
        pair_paths(a, b, names.drop_last()) + seq![join(a, names.last()), join(b, names.last())]
    }
}

/// The build-profile directory of a workspace.
pub open spec fn profile_dir(root: Seq<char>, profile: Seq<char>) -> Seq<char> {
    join(join(root, "target"@), profile)
}

/// Every location searched, in order: the release and debug build outputs
/// (and their `deps`) of the working directory, then the engine directory
/// and its `drivers`.
pub open spec fn probe_paths(root: Seq<char>, engine: Seq<char>, names: Seq<Seq<char>>) -> Seq<
    Seq<char>,
> {
    let rel = profile_dir(root, "release"@);
    let dbg = profile_dir(root, "debug"@);
    pair_paths(rel, join(rel, "deps"@), names) + pair_paths(dbg, join(dbg, "deps"@), names)
        + pair_paths(engine, join(engine, "drivers"@), names)
}

/// Whether probe `i` found a file; probes that were not made found nothing.
pub open spec fn found_at(found: Seq<bool>, i: int) -> bool {
    0 <= i < found.len() && found[i]
}

/// The first probed path, from index `i` on, at which a file was found.
pub open spec fn first_found_from(paths: Seq<Seq<char>>, found: Seq<bool>, i: int) -> Option<
    Seq<char>,
>
    decreases paths.len() - i,
{
    if i < 0 || i >= paths.len() {
        None
    } else if found_at(found, i) {
        Some(paths[i])
    } else {
        first_found_from(paths, found, i + 1)
    }
}

/// What the loader learned from the filesystem: the host, the working
/// directory (if it could be read), the installed engine directory, and for
/// each path of [`KernelLoader::probe_paths`] whether it is a file.
pub struct KernelSearch {
    pub host: HostOs,
    pub current_dir: Option<String>,
    pub engine_dir: String,
    pub is_file: Vec<bool>,
}

/// Resolves native libraries below a base directory.
pub struct KernelLoader {
    pub base_dir: String,
}

/// The working directory, or the loader's base directory when unknown.
pub open spec fn search_root(base: Seq<char>, current_dir: Option<Seq<char>>) -> Seq<char> {
    match current_dir {
        Some(d) => d,
        None => base,
    }
}

/// The path a kernel resolves to: the first probe that found a file, or
/// else the engine directory joined with the kernel's installed name.
pub open spec fn resolved_kernel(
    base: Seq<char>,
    kernel: Seq<char>,
    os: Seq<char>,
    host: HostOs,
    current_dir: Option<Seq<char>>,
    engine: Seq<char>,
    found: Seq<bool>,
) -> Seq<char> {
    let ext = extension_for_os(os);
    let paths = probe_paths(search_root(base, current_dir), engine, candidate_names(kernel, ext));
    match first_found_from(paths, found, 0) {
        Some(p) => p,
        None => join(engine, primary_name(kernel, ext, host)),
    }
}

/// Whether some probe of the search found a file.
pub open spec fn kernel_found(
    base: Seq<char>,
    kernel: Seq<char>,
    os: Seq<char>,
    current_dir: Option<Seq<char>>,
    engine: Seq<char>,
    found: Seq<bool>,
) -> bool {
    let paths = probe_paths(
        search_root(base, current_dir),
        engine,
        candidate_names(kernel, extension_for_os(os)),
    );
    exists|i: int| 0 <= i < paths.len() && found_at(found, i)
}

fn candidate_prefixes_exec() -> (r: Vec<Vec<char>>)
    ensures
        views(r@) == candidate_prefixes(),
{
    let mut r: Vec<Vec<char>> = Vec::new();
    r.push(chars_of("bitshit-"));
    r.push(chars_of("bitshit_"));
    r.push(chars_of("libbitshit_"));
    r.push(chars_of("libbitshit-"));
    r.push(chars_of("cluaiz-"));
    r.push(chars_of("cluaiz_"));
    r.push(chars_of("libcluaiz_"));
    r.push(chars_of("libcluaiz-"));
    r.push(chars_of("archer_"));
    r.push(chars_of("archer-"));
    r.push(chars_of("libarcher_"));
    assert(views(r@) =~= candidate_prefixes());
    r
}

fn file_with_prefix_exec(prefix: &[char], kernel: &[char], ext: &[char]) -> (r: Vec<char>)
    ensures
        r@ == file_with_prefix(prefix@, kernel@, ext@),
{
    let dot = vec!['.'];
    assert(dot@ =~= seq!['.']);
    let mut r = concat3(prefix, kernel, dot.as_slice());
    let mut i: usize = 0;
    let ghost start = r@;
    while i < ext.len()
        invariant
            i <= ext@.len(),
            r@ == start + ext@.subrange(0, i as int),
        decreases ext@.len() - i,
    {
        r.push(ext[i]);
        assert(ext@.subrange(0, i + 1) =~= ext@.subrange(0, i as int).push(ext@[i as int]));
        i = i + 1;
    }
    assert(ext@.subrange(0, ext@.len() as int) =~= ext@);
    r
}

fn candidate_names_exec(kernel: &[char], ext: &[char]) -> (r: Vec<Vec<char>>)
    ensures
        views(r@) == candidate_names(kernel@, ext@),
{
    let prefixes = candidate_prefixes_exec();
    let mut r: Vec<Vec<char>> = Vec::new();
    let mut i: usize = 0;
    while i < prefixes.len()
        invariant
            i <= prefixes@.len(),
            views(prefixes@) == candidate_prefixes(),
            r@.len() == i,
            forall|k: int|
                0 <= k < i ==> #[trigger] r@[k]@ == file_with_prefix(
                    candidate_prefixes()[k],
                    kernel@,
                    ext@,
                ),
        decreases prefixes@.len() - i,
    {
        assert(views(prefixes@)[i as int] == prefixes@[i as int]@);
        let n = file_with_prefix_exec(prefixes[i].as_slice(), kernel, ext);
        r.push(n);
        i = i + 1;
    }
    assert(views(r@) =~= candidate_names(kernel@, ext@));
    r
}

fn pair_paths_exec(a: &[char], b: &[char], names: &Vec<Vec<char>>, out: &mut Vec<Vec<char>>)
    ensures
        views(final(out)@) == views(old(out)@) + pair_paths(a@, b@, views(names@)),
{
    let ghost start = views(out@);
    let mut i: usize = 0;
    while i < names.len()
        invariant
            i <= names@.len(),
            views(out@) == start + pair_paths(a@, b@, views(names@).subrange(0, i as int)),
        decreases names@.len() - i,
    {
        let ghost pre = views(names@).subrange(0, i + 1);
        assert(pre.drop_last() =~= views(names@).subrange(0, i as int));
        assert(pre.last() == names@[i as int]@);
        let ghost before = views(out@);
        out.push(join_exec(a, names[i].as_slice()));
        out.push(join_exec(b, names[i].as_slice()));
        assert(views(out@) =~= before + seq![join(a@, names@[i as int]@), join(b@, names@[i as int]@)]);
        i = i + 1;
    }
    assert(views(names@).subrange(0, names@.len() as int) =~= views(names@));
}

/// Every location searched for the given file names (see [`probe_paths`]).
pub(crate) fn search_paths_exec(root: &[char], engine: &[char], names: &Vec<Vec<char>>) -> (r: Vec<
    Vec<char>,
>)
    ensures
        views(r@) == probe_paths(root@, engine@, views(names@)),
{
    let target = join_exec(root, chars_of("target").as_slice());
    let rel = join_exec(target.as_slice(), chars_of("release").as_slice());
    let dbg = join_exec(target.as_slice(), chars_of("debug").as_slice());
    let rel_deps = join_exec(rel.as_slice(), chars_of("deps").as_slice());
    let dbg_deps = join_exec(dbg.as_slice(), chars_of("deps").as_slice());
    let drivers = join_exec(engine, chars_of("drivers").as_slice());
    let mut out: Vec<Vec<char>> = Vec::new();
    assert(views(out@) =~= Seq::<Seq<char>>::empty());
    pair_paths_exec(rel.as_slice(), rel_deps.as_slice(), names, &mut out);
    pair_paths_exec(dbg.as_slice(), dbg_deps.as_slice(), names, &mut out);
    pair_paths_exec(engine, drivers.as_slice(), names, &mut out);
    out
}

pub(crate) fn first_found_exec(paths: &Vec<Vec<char>>, found: &Vec<bool>) -> (r: Option<usize>)
    ensures
        match r {
            Some(i) => i < paths@.len() && first_found_from(views(paths@), found@, 0) == Some(
                paths@[i as int]@,
            ),
            None => first_found_from(views(paths@), found@, 0) is None,
        },
{
    let ghost all = views(paths@);
    let mut i: usize = 0;
    while i < paths.len()
        invariant
            i <= paths@.len(),
            all == views(paths@),
            first_found_from(all, found@, 0) == first_found_from(all, found@, i as int),
        decreases paths@.len() - i,
    {
        if i < found.len() && found[i] {
            return Some(i);
        }
        i = i + 1;
    }
    None
}

/// Whether some index below the length of `paths` found a file, from `i` on,
/// exactly when the first such path exists.
proof fn lemma_first_found_some(paths: Seq<Seq<char>>, found: Seq<bool>, i: int)
    requires
        0 <= i <= paths.len(),
    ensures
        first_found_from(paths, found, i) is Some <==> exists|k: int|
            i <= k < paths.len() && found_at(found, k),
    decreases paths.len() - i,
{
    if i < paths.len() {
        lemma_first_found_some(paths, found, i + 1);
        if found_at(found, i) {
        } else {
            if exists|k: int| i <= k < paths.len() && found_at(found, k) {
                let k = choose|k: int| i <= k < paths.len() && found_at(found, k);
                assert(i + 1 <= k);
            }
        }
    }
}

proof fn lemma_pair_paths_contains(a: Seq<char>, b: Seq<char>, names: Seq<Seq<char>>, j: int)
    requires
        0 <= j < names.len(),
    ensures
        pair_paths(a, b, names).len() == 2 * names.len(),
        pair_paths(a, b, names)[2 * j] == join(a, names[j]),
    decreases names.len(),
{
    if j < names.len() - 1 {
        lemma_pair_paths_contains(a, b, names.drop_last(), j);
    } else {
        lemma_pair_paths_len(a, b, names.drop_last());
    }
}

proof fn lemma_pair_paths_len(a: Seq<char>, b: Seq<char>, names: Seq<Seq<char>>)
    ensures
        pair_paths(a, b, names).len() == 2 * names.len(),
    decreases names.len(),
{
    if names.len() > 0 {
        lemma_pair_paths_len(a, b, names.drop_last());
    }
}

/// The path expected when no kernel file is found is itself one of the
/// searched locations, so a kernel exists exactly when some probe found it.
pub proof fn law_fallback_is_searched(
    root: Seq<char>,
    engine: Seq<char>,
    kernel: Seq<char>,
    ext: Seq<char>,
    host: HostOs,
)
    ensures
        probe_paths(root, engine, candidate_names(kernel, ext)).contains(
            join(engine, primary_name(kernel, ext, host)),
        ),
{
    let names = candidate_names(kernel, ext);
    let rel = profile_dir(root, "release"@);
    let dbg = profile_dir(root, "debug"@);
    let a = pair_paths(rel, join(rel, "deps"@), names);
    let b = pair_paths(dbg, join(dbg, "deps"@), names);
    let c = pair_paths(engine, join(engine, "drivers"@), names);
    let j: int = if host == HostOs::Windows { 0 } else { 2 };
    assert(names[j] == primary_name(kernel, ext, host));
    lemma_pair_paths_len(rel, join(rel, "deps"@), names);
    lemma_pair_paths_len(dbg, join(dbg, "deps"@), names);
    lemma_pair_paths_contains(engine, join(engine, "drivers"@), names, j);
    let all = a + b + c;
    assert(all[a.len() + b.len() + 2 * j] == c[2 * j]);
}

proof fn lemma_candidate_names_suffix(kernel: Seq<char>, ext: Seq<char>)
    ensures
        forall|k: int|
            0 <= k < candidate_names(kernel, ext).len() ==> crate::text::has_suffix(
                #[trigger] candidate_names(kernel, ext)[k],
                seq!['.'] + ext,
            ),
{
    assert forall|k: int| 0 <= k < candidate_names(kernel, ext).len() implies crate::text::has_suffix(
        #[trigger] candidate_names(kernel, ext)[k],
        seq!['.'] + ext,
    ) by {
        let n = candidate_names(kernel, ext)[k];
        let pre = candidate_prefixes()[k] + kernel;
        assert(n == pre + (seq!['.'] + ext));
        assert(n.subrange(n.len() - (ext.len() + 1), n.len() as int) =~= seq!['.'] + ext);
    }
}

proof fn lemma_pair_paths_suffix(a: Seq<char>, b: Seq<char>, names: Seq<Seq<char>>, p: Seq<char>)
    requires
        forall|k: int| 0 <= k < names.len() ==> crate::text::has_suffix(#[trigger] names[k], p),
    ensures
        forall|k: int|
            0 <= k < pair_paths(a, b, names).len() ==> crate::text::has_suffix(
                #[trigger] pair_paths(a, b, names)[k],
                p,
            ),
    decreases names.len(),
{
    if names.len() > 0 {
        let init = names.drop_last();
        assert forall|k: int| 0 <= k < init.len() implies crate::text::has_suffix(#[trigger] init[k], p) by {
            assert(init[k] == names[k]);
        }
        lemma_pair_paths_suffix(a, b, init, p);
        let rest = pair_paths(a, b, init);
        let all = pair_paths(a, b, names);
        assert(crate::text::has_suffix(names.last(), p));
        crate::paths::lemma_join_keeps_suffix(a, names.last(), p);
        crate::paths::lemma_join_keeps_suffix(b, names.last(), p);
        assert forall|k: int| 0 <= k < all.len() implies crate::text::has_suffix(#[trigger] all[k], p) by {
            if k < rest.len() {
                assert(all[k] == rest[k]);
            } else if k == rest.len() {
                assert(all[k] == join(a, names.last()));
            } else {
                assert(all[k] == join(b, names.last()));
            }
        }
    }
}

proof fn lemma_concat_suffix(x: Seq<Seq<char>>, y: Seq<Seq<char>>, p: Seq<char>)
    requires
        forall|k: int| 0 <= k < x.len() ==> crate::text::has_suffix(#[trigger] x[k], p),
        forall|k: int| 0 <= k < y.len() ==> crate::text::has_suffix(#[trigger] y[k], p),
    ensures
        forall|k: int| 0 <= k < (x + y).len() ==> crate::text::has_suffix(#[trigger] (x + y)[k], p),
{
    assert forall|k: int| 0 <= k < (x + y).len() implies crate::text::has_suffix(#[trigger] (x + y)[k], p) by {
        if k < x.len() {
            assert((x + y)[k] == x[k]);
        } else {
            assert((x + y)[k] == y[k - x.len()]);
        }
    }
}

proof fn lemma_first_found_in(paths: Seq<Seq<char>>, found: Seq<bool>, i: int)
    ensures
        first_found_from(paths, found, i) matches Some(p) ==> paths.contains(p),
    decreases paths.len() - i,
{
    if 0 <= i < paths.len() && !found_at(found, i) {
        lemma_first_found_in(paths, found, i + 1);
    }
    if 0 <= i < paths.len() && found_at(found, i) {
        assert(paths[i] == paths[i]);
    }
}

/// Every kernel file the loader searches for, and the path it resolves to,
/// carries the shared-library extension of the operating system: `.dll` on
/// Windows, `.so` on Linux and Android, `.dylib` on macOS and iOS.
pub proof fn law_kernel_paths_use_os_extension(
    base: Seq<char>,
    kernel: Seq<char>,
    os: Seq<char>,
    host: HostOs,
    current_dir: Option<Seq<char>>,
    engine: Seq<char>,
    found: Seq<bool>,
)
    ensures
        ({
            let paths = probe_paths(
                search_root(base, current_dir),
                engine,
                candidate_names(kernel, extension_for_os(os)),
            );
            let r = resolved_kernel(base, kernel, os, host, current_dir, engine, found);
            &&& os == "Windows"@ ==> crate::text::has_suffix(r, ".dll"@) && (forall|k: int|
                0 <= k < paths.len() ==> crate::text::has_suffix(#[trigger] paths[k], ".dll"@))
            &&& (os == "Linux"@ || os == "Android"@) ==> crate::text::has_suffix(r, ".so"@) && (forall|k: int|
                0 <= k < paths.len() ==> crate::text::has_suffix(#[trigger] paths[k], ".so"@))
            &&& (os == "macOS"@ || os == "iOS"@) ==> crate::text::has_suffix(r, ".dylib"@) && (forall|k: int|
                0 <= k < paths.len() ==> crate::text::has_suffix(#[trigger] paths[k], ".dylib"@))
        }),
{
    let ext = extension_for_os(os);
    let p = seq!['.'] + ext;
    let names = candidate_names(kernel, ext);
    let root = search_root(base, current_dir);
    let rel = profile_dir(root, "release"@);
    let dbg = profile_dir(root, "debug"@);
    lemma_candidate_names_suffix(kernel, ext);
    lemma_pair_paths_suffix(rel, join(rel, "deps"@), names, p);
    lemma_pair_paths_suffix(dbg, join(dbg, "deps"@), names, p);
    lemma_pair_paths_suffix(engine, join(engine, "drivers"@), names, p);
    let x = pair_paths(rel, join(rel, "deps"@), names);
    let y = pair_paths(dbg, join(dbg, "deps"@), names);
    let z = pair_paths(engine, join(engine, "drivers"@), names);
    lemma_concat_suffix(x, y, p);
    lemma_concat_suffix(x + y, z, p);
    let paths = probe_paths(root, engine, names);
    assert(paths == x + y + z);
    let pn = primary_name(kernel, ext, host);
    let pre = if host == HostOs::Windows { "bitshit-"@ } else { "libbitshit_"@ };
    assert(pn == (pre + kernel) + p);
    assert(pn.subrange(pn.len() - p.len(), pn.len() as int) =~= p);
    crate::paths::lemma_join_keeps_suffix(engine, pn, p);
    lemma_first_found_in(paths, found, 0);
    let r = resolved_kernel(base, kernel, os, host, current_dir, engine, found);
    assert(crate::text::has_suffix(r, p)) by {
        if first_found_from(paths, found, 0) is Some {
            let q = first_found_from(paths, found, 0)->0;
            let k = choose|k: int| 0 <= k < paths.len() && paths[k] == q;
            assert(crate::text::has_suffix(paths[k], p));
        }
    }
    reveal_strlit("Windows");
    reveal_strlit("Linux");
    reveal_strlit("Android");
    reveal_strlit("macOS");
    reveal_strlit("iOS");
    reveal_strlit("dll");
    reveal_strlit("so");
    reveal_strlit("dylib");
    reveal_strlit(".dll");
    reveal_strlit(".so");
    reveal_strlit(".dylib");
    assert(forall|k: int| 0 <= k < paths.len() ==> crate::text::has_suffix(#[trigger] paths[k], p));
    assert("Windows"@[0] == 'W' && "Linux"@[0] == 'L' && "Android"@[0] == 'A' && "macOS"@[0] == 'm'
        && "iOS"@[0] == 'i');
    if os == "Windows"@ {
        assert(ext == "dll"@);
        assert(p =~= ".dll"@);
    } else if os == "Linux"@ || os == "Android"@ {
        assert(ext == "so"@);
        assert(p =~= ".so"@);
    } else if os == "macOS"@ || os == "iOS"@ {
        assert(ext == "dylib"@);
        assert(p =~= ".dylib"@);
    }
}

impl KernelLoader {
    pub fn new(base_dir: String) -> (r: Self)
        ensures
            r.base_dir@ == base_dir@,
    {
        Self { base_dir }
    }

    /// The file name a kernel is installed under on `host`.
    pub fn primary_name(kernel_name: &str, extension: &str, host: HostOs) -> (r: String)
        ensures
            r@ == primary_name(kernel_name@, extension@, host),
    {
        let prefix = if host == HostOs::Windows {
            chars_of("bitshit-")
        } else {
            chars_of("libbitshit_")
        };
        let n = file_with_prefix_exec(
            prefix.as_slice(),
            chars_of(kernel_name).as_slice(),
            chars_of(extension).as_slice(),
        );
        string_of(n.as_slice())
    }

    /// The accepted file names of a kernel, in search order.
    pub fn candidate_names(kernel_name: &str, extension: &str) -> (r: Vec<String>)
        ensures
            string_views(r@) == candidate_names(kernel_name@, extension@),
    {
        let names = candidate_names_exec(chars_of(kernel_name).as_slice(), chars_of(extension).as_slice());
        strings_of(&names)
    }

    fn probe_paths_exec(
        &self,
        kernel_name: &str,
        os: &str,
        current_dir: &Option<String>,
        engine_dir: &str,
    ) -> (r: Vec<Vec<char>>)
        ensures
            views(r@) == probe_paths(
                search_root(self.base_dir@, opt_string_view(*current_dir)),
                engine_dir@,
                candidate_names(kernel_name@, extension_for_os(os@)),
            ),
    {
        let ext = extension_for_os_exec(os);
        let names = candidate_names_exec(chars_of(kernel_name).as_slice(), ext.as_slice());
        let root = match current_dir {
            Some(d) => chars_of(d.as_str()),
            None => chars_of(self.base_dir.as_str()),
        };
        search_paths_exec(root.as_slice(), chars_of(engine_dir).as_slice(), &names)
    }

    /// Every location searched for a kernel, in order.
    pub fn probe_paths(
        &self,
        kernel_name: &str,
        os: &str,
        current_dir: &Option<String>,
        engine_dir: &str,
    ) -> (r: Vec<String>)
        ensures
            string_views(r@) == probe_paths(
                search_root(self.base_dir@, opt_string_view(*current_dir)),
                engine_dir@,
                candidate_names(kernel_name@, extension_for_os(os@)),
            ),
    {
        let paths = self.probe_paths_exec(kernel_name, os, current_dir, engine_dir);
        strings_of(&paths)
    }

    /// The kernel path for operating system `os`: the first searched file
    /// that exists, else the path it is expected at in the engine directory.
    pub fn resolve_path_for_os(&self, kernel_name: &str, os: &str, search: &KernelSearch) -> (r:
        String)
        ensures
            r@ == resolved_kernel(
                self.base_dir@,
                kernel_name@,
                os@,
                search.host,
                opt_string_view(search.current_dir),
                search.engine_dir@,
                search.is_file@,
            ),
    {
        let paths = self.probe_paths_exec(
            kernel_name,
            os,
            &search.current_dir,
            search.engine_dir.as_str(),
        );
        match first_found_exec(&paths, &search.is_file) {
            Some(i) => string_of(paths[i].as_slice()),
            None => {
                let ext = extension_for_os_exec(os);
                let name = Self::primary_name(kernel_name, string_of(ext.as_slice()).as_str(), search.host);
                let p = join_exec(chars_of(search.engine_dir.as_str()).as_slice(), chars_of(name.as_str()).as_slice());
                string_of(p.as_slice())
            },
        }
    }

    /// The kernel path for the host operating system.
    pub fn resolve_path(&self, kernel_name: &str, search: &KernelSearch) -> (r: String)
        ensures
            r@ == resolved_kernel(
                self.base_dir@,
                kernel_name@,
                os_label(search.host),
                search.host,
                opt_string_view(search.current_dir),
                search.engine_dir@,
                search.is_file@,
            ),
    {
        let os = os_label_exec(search.host);
        self.resolve_path_for_os(kernel_name, os.as_str(), search)
    }

    /// Whether the kernel exists for `os`: some searched location holds it.
    pub fn exists_for_os(&self, kernel_name: &str, os: &str, search: &KernelSearch) -> (r: bool)
        ensures
            r == kernel_found(
                self.base_dir@,
                kernel_name@,
                os@,
                opt_string_view(search.current_dir),
                search.engine_dir@,
                search.is_file@,
            ),
    {
        let paths = self.probe_paths_exec(
            kernel_name,
            os,
            &search.current_dir,
            search.engine_dir.as_str(),
        );
        proof {
            lemma_first_found_some(views(paths@), search.is_file@, 0);
        }
        first_found_exec(&paths, &search.is_file).is_some()
    }

    /// Whether the kernel exists for the host operating system.
    pub fn exists_on_host(&self, kernel_name: &str, search: &KernelSearch) -> (r: bool)
        ensures
            r == kernel_found(
                self.base_dir@,
                kernel_name@,
                os_label(search.host),
                opt_string_view(search.current_dir),
                search.engine_dir@,
                search.is_file@,
            ),
    {
        let os = os_label_exec(search.host);
        self.exists_for_os(kernel_name, os.as_str(), search)
    }
}

} // verus!
