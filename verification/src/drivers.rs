//! Provisioning of hardware drivers and kernels from the driver registry:
//! registry keys, artifact names, the registry text format, and the
//! decisions of when an installed artifact is kept.
use vstd::prelude::*;
use crate::json::{json_document_parses, json_member_string, member_string, read_string};
use crate::kernel_loader::HostOs;
use crate::paths::{extension, extension_exec, join, join_exec, join_str};
use crate::text::{
    chars_eq, chars_of, concat, concat3, ends_with, has_prefix, has_suffix, split_char,
    split_char_exec, starts_with, string_of, string_views, to_vec, trim, trim_exec, trim_start,
    trim_start_exec, views,
};

verus! {

/// The shared-library extension of the host.
pub open spec fn library_extension_of(host: HostOs) -> Seq<char> {
    match host {
        HostOs::Windows => "dll"@,
        HostOs::MacOs => "dylib"@,
        _ => "so"@,
    }
}

/// The shared-library extension of the host (`dll`, `dylib` or `so`).
pub fn dynamic_library_extension(host: HostOs) -> (r: String)
    ensures
        r@ == library_extension_of(host),
{
    match host {
        HostOs::Windows => string_of(chars_of("dll").as_slice()),
        HostOs::MacOs => string_of(chars_of("dylib").as_slice()),
        _ => string_of(chars_of("so").as_slice()),
    }
}

/// The registry platform of the host.
pub open spec fn driver_platform(host: HostOs) -> Seq<char> {
    match host {
        HostOs::Windows => "win-x64"@,
        HostOs::MacOs => "mac-arm64"@,
        HostOs::Android => "android-arm64"@,
        _ => "linux-x64"@,
    }
}

/// The registry key of a driver: CUDA drivers are published for CUDA 12,
/// every other driver under its own name.
pub open spec fn registry_key(driver: Seq<char>, host: HostOs) -> Seq<char> {
    if driver == "cuda"@ {
        driver_platform(host) + "-cuda-12"@
    } else {
        driver_platform(host) + seq!['-'] + driver
    }
}

/// `str::lines`: split at `\n`, drop one `\r` before each `\n`, and no
/// empty line after a final `\n`.
pub open spec fn strip_cr(l: Seq<char>) -> Seq<char> {
    if l.len() > 0 && l.last() == '\r' {
        l.drop_last()
    } else {
        l
    }
}

pub open spec fn text_lines(s: Seq<char>) -> Seq<Seq<char>> {
    let parts = split_char(s, '\n');
    let body = parts.drop_last().map_values(|l: Seq<char>| strip_cr(l));
    if parts.len() > 0 && parts.last().len() > 0 {
        body.push(parts.last())
    } else {
        body
    }
}

/// Lines joined with `\n`.
pub open spec fn join_lines(ls: Seq<Seq<char>>) -> Seq<char>
    decreases ls.len(),
{
    if ls.len() == 0 {
        Seq::empty()
    } else if ls.len() == 1 {
        ls[0]
    } else {
        join_lines(ls.drop_last()) + seq!['\n'] + ls.last()
    }
}

/// A line that holds only a `//` comment.
pub open spec fn is_comment_line(l: Seq<char>) -> bool {
    has_prefix(trim_start(l), "//"@)
}

/// The lines that are not comments, in order.
pub open spec fn code_lines(ls: Seq<Seq<char>>) -> Seq<Seq<char>>
    decreases ls.len(),
{
    if ls.len() == 0 {
        Seq::empty()
    } else if is_comment_line(ls.last()) {
        code_lines(ls.drop_last())
    } else {
        code_lines(ls.drop_last()).push(ls.last())
    }
}

/// The registry text with its comment lines removed, as it is parsed.
pub open spec fn normalized_registry(text: Seq<char>) -> Seq<char> {
    join_lines(code_lines(text_lines(text)))
}

/// The file name a driver download is stored under: the last segment of its
/// URL, or `driver.bin` when that is empty.
pub open spec fn driver_file_name(url: Seq<char>) -> Seq<char> {
    let segs = split_char(url, '/');
    if segs.len() > 0 && segs.last().len() > 0 {
        segs.last()
    } else {
        "driver.bin"@
    }
}

/// A locally installed kernel of more than 30 MiB carries an accelerated
/// backend and is kept.
pub open spec fn preserves_local_kernel(size: Option<u64>) -> bool {
    match size {
        Some(n) => n / 1048576 > 30,
        None => false,
    }
}

/// A readiness marker records the installed version.
pub open spec fn marker_current(marker: Option<Seq<char>>, version: Seq<char>) -> bool {
    match marker {
        Some(t) => trim(t) == version,
        None => false,
    }
}

/// Where a file is written before it replaces `destination`.
pub open spec fn partial_path(destination: Seq<char>, fallback: Seq<char>) -> Seq<char> {
    match extension(destination) {
        Some(_) => destination + ".part"@,
        None => destination + seq!['.'] + fallback + ".part"@,
    }
}

/// A driver registry document (comment lines removed) that parses as JSON.
pub struct DriverRegistry {
    document: String,
}

impl View for DriverRegistry {
    type V = Seq<char>;

    closed spec fn view(&self) -> Seq<char> {
        self.document@
    }
}

impl DriverRegistry {
    /// The document of a registry always parses.
    #[verifier::type_invariant]
    spec fn parses(self) -> bool {
        json_document_parses(self.document@)
    }
}

/// The registry version, `unknown` when it names none.
pub open spec fn registry_version(document: Seq<char>) -> Seq<char> {
    match json_member_string(document, seq!["version"@]) {
        Some(v) => v,
        None => "unknown"@,
    }
}

fn text_of(s: &str) -> (r: String)
    ensures
        r@ == s@,
{
    string_of(chars_of(s).as_slice())
}

impl DriverRegistry {
    fn lookup(&self, keys: &Vec<String>) -> (r: Option<String>)
        ensures
            match r {
                Some(s) => json_member_string(self@, string_views(keys@)) == Some(s@),
                None => json_member_string(self@, string_views(keys@)) is None,
            },
    {
        proof {
            use_type_invariant(self);
        }
        match member_string(self.document.as_str(), keys) {
            Ok(o) => o,
            Err(_) => {
                assert(false);
                None
            },
        }
    }

    /// Reads registry text: its comment lines are removed and the rest must
    /// parse as JSON (else serde_json's error).
    pub fn parse(text: &str) -> (r: Result<DriverRegistry, String>)
        ensures
            r is Ok <==> json_document_parses(normalized_registry(text@)),
            r matches Ok(reg) ==> reg@ == normalized_registry(text@),
    {
        let document = DriverProvisioner::normalize_registry_text(text);
        match read_string(document.as_str(), "") {
            Ok(_) => Ok(DriverRegistry { document }),
            Err(e) => Err(e),
        }
    }

    /// The registry version, `unknown` when it names none.
    pub fn manifest_version(&self) -> (r: String)
        ensures
            r@ == registry_version(self@),
    {
        let mut tokens: Vec<String> = Vec::new();
        tokens.push(text_of("version"));
        assert(string_views(tokens@) =~= seq!["version"@]);
        match self.lookup(&tokens) {
            Some(v) => v,
            None => text_of("unknown"),
        }
    }

    /// The download URL of a kernel for a registry key
    /// (`kernel.<kernel type>.<registry key>`), or the error that names both
    /// when the registry lists none.
    pub fn kernel_download_url(&self, kernel_type: &str, registry_key: &str) -> (r: Result<
        String,
        String,
    >)
        ensures
            match json_member_string(self@, seq!["kernel"@, kernel_type@, registry_key@]) {
                Some(u) => r matches Ok(s) && s@ == u,
                None => r matches Err(e) && e@ == "Kernel '"@ + kernel_type@ + "' for registry key '"@
                    + registry_key@ + "' was not found"@,
            },
    {
        let mut tokens: Vec<String> = Vec::new();
        tokens.push(text_of("kernel"));
        tokens.push(text_of(kernel_type));
        tokens.push(text_of(registry_key));
        assert(string_views(tokens@) =~= seq!["kernel"@, kernel_type@, registry_key@]);
        match self.lookup(&tokens) {
            Some(u) => Ok(u),
            None => {
                let m = concat3(
                    concat3(
                        chars_of("Kernel '").as_slice(),
                        chars_of(kernel_type).as_slice(),
                        chars_of("' for registry key '").as_slice(),
                    ).as_slice(),
                    chars_of(registry_key).as_slice(),
                    chars_of("' was not found").as_slice(),
                );
                Err(string_of(m.as_slice()))
            },
        }
    }

    /// The download URL of a driver for a registry key
    /// (`drivers.<registry key>`), or the error that names the key when the
    /// registry lists none.
    pub fn driver_download_url(&self, registry_key: &str) -> (r: Result<String, String>)
        ensures
            match json_member_string(self@, seq!["drivers"@, registry_key@]) {
                Some(u) => r matches Ok(s) && s@ == u,
                None => r matches Err(e) && e@ == "Driver key '"@ + registry_key@
                    + "' was not found"@,
            },
    {
        let mut tokens: Vec<String> = Vec::new();
        tokens.push(text_of("drivers"));
        tokens.push(text_of(registry_key));
        assert(string_views(tokens@) =~= seq!["drivers"@, registry_key@]);
        match self.lookup(&tokens) {
            Some(u) => Ok(u),
            None => {
                let m = concat3(
                    chars_of("Driver key '").as_slice(),
                    chars_of(registry_key).as_slice(),
                    chars_of("' was not found").as_slice(),
                );
                Err(string_of(m.as_slice()))
            },
        }
    }
}

/// Installs drivers and kernels below the interface directory.
pub struct DriverProvisioner;

impl DriverProvisioner {
    /// The registry key under which a driver is published for the host.
    pub fn get_registry_key(driver_type: &str, host: HostOs) -> (r: String)
        ensures
            r@ == registry_key(driver_type@, host),
    {
        let platform = match host {
            HostOs::Windows => chars_of("win-x64"),
            HostOs::MacOs => chars_of("mac-arm64"),
            HostOs::Android => chars_of("android-arm64"),
            _ => chars_of("linux-x64"),
        };
        let d = chars_of(driver_type);
        if chars_eq(d.as_slice(), chars_of("cuda").as_slice()) {
            string_of(concat(platform.as_slice(), chars_of("-cuda-12").as_slice()).as_slice())
        } else {
            let dash = vec!['-'];
            assert(dash@ =~= seq!['-']);
            string_of(concat3(platform.as_slice(), dash.as_slice(), d.as_slice()).as_slice())
        }
    }

    /// The driver directory below the interface directory.
    pub fn get_driver_path(interface_path: &str) -> (r: String)
        ensures
            r@ == join(interface_path@, "drivers"@),
    {
        join_str(interface_path, "drivers")
    }

    /// The readiness marker and the library path of a kernel.
    pub fn kernel_artifacts(kernel_dir: &str, kernel_type: &str, host: HostOs) -> (r: (String, String))
        ensures
            r.0@ == join(kernel_dir@, "bitshit-"@ + kernel_type@ + ".ready"@),
            r.1@ == join(
                kernel_dir@,
                "bitshit-"@ + kernel_type@ + seq!['.'] + library_extension_of(host),
            ),
    {
        let dir = chars_of(kernel_dir);
        let k = chars_of(kernel_type);
        let marker_name = concat3(chars_of("bitshit-").as_slice(), k.as_slice(), chars_of(".ready").as_slice());
        let ext = dynamic_library_extension(host);
        let dot = vec!['.'];
        assert(dot@ =~= seq!['.']);
        let stem = concat3(chars_of("bitshit-").as_slice(), k.as_slice(), dot.as_slice());
        let lib_name = concat(stem.as_slice(), chars_of(ext.as_str()).as_slice());
        let marker = string_of(join_exec(dir.as_slice(), marker_name.as_slice()).as_slice());
        let lib = string_of(join_exec(dir.as_slice(), lib_name.as_slice()).as_slice());
        (marker, lib)
    }

    /// The readiness marker of a driver.
    pub fn driver_marker(driver_dir: &str, driver_type: &str) -> (r: String)
        ensures
            r@ == join(driver_dir@, "bitshit-"@ + driver_type@ + ".ready"@),
    {
        let name = concat3(chars_of("bitshit-").as_slice(), chars_of(driver_type).as_slice(), chars_of(".ready").as_slice());
        string_of(join_exec(chars_of(driver_dir).as_slice(), name.as_slice()).as_slice())
    }

    /// Whether an installed kernel of `size` bytes (`None`: not a file) is
    /// kept in place of a download.
    pub fn preserves_local_kernel(size: Option<u64>) -> (r: bool)
        ensures
            r == preserves_local_kernel(size),
    {
        match size {
            Some(n) => n / 1048576 > 30,
            None => false,
        }
    }

    /// Whether a readiness marker (`None`: not a file; empty when unreadable)
    /// records `version`.
    pub fn marker_is_current(marker: Option<&str>, version: &str) -> (r: bool)
        ensures
            r == marker_current(
                match marker {
                    Some(t) => Some(t@),
                    None => None,
                },
                version@,
            ),
    {
        match marker {
            Some(t) => chars_eq(trim_exec(chars_of(t).as_slice()).as_slice(), chars_of(version).as_slice()),
            None => false,
        }
    }

    /// The file name a driver download is stored under.
    pub fn driver_file_name(url: &str) -> (r: String)
        ensures
            r@ == driver_file_name(url@),
    {
        let segs = split_char_exec(chars_of(url).as_slice(), '/');
        proof {
            crate::text::lemma_split_nonempty(url@, seq!['/']);
        }
        let last = &segs[segs.len() - 1];
        assert(views(segs@).last() == segs@[segs@.len() - 1]@);
        if last.len() > 0 {
            string_of(last.as_slice())
        } else {
            string_of(chars_of("driver.bin").as_slice())
        }
    }

    /// Whether a driver download is a ZIP archive to unpack.
    pub fn is_archive(file_name: &str) -> (r: bool)
        ensures
            r == has_suffix(file_name@, ".zip"@),
    {
        ends_with(chars_of(file_name).as_slice(), chars_of(".zip").as_slice())
    }

    /// The registry text with its `//` comment lines removed.
    pub fn normalize_registry_text(text: &str) -> (r: String)
        ensures
            r@ == normalized_registry(text@),
    {
        let t = chars_of(text);
        let parts = split_char_exec(t.as_slice(), '\n');
        proof {
            crate::text::lemma_split_nonempty(text@, seq!['\n']);
        }
        let ghost all = views(parts@);
        let ghost lines = text_lines(text@);
        let n = parts.len();
        let mut kept: Vec<Vec<char>> = Vec::new();
        let mut i: usize = 0;
        while i < n
            invariant
                n == parts@.len(),
                n >= 1,
                i <= n,
                all == views(parts@),
                all == split_char(text@, '\n'),
                lines == text_lines(text@),
                views(kept@) == code_lines(text_lines_prefix(all, i as int)),
            decreases n - i,
        {
            let is_last = i + 1 == n;
            let line = if is_last {
                to_vec(parts[i].as_slice())
            } else {
                strip_cr_exec(parts[i].as_slice())
            };
            let counted = !is_last || parts[i].len() > 0;
            proof {
                assert(all[i as int] == parts@[i as int]@);
                lemma_text_lines_prefix_step(all, i as int);
            }
            if counted {
                let ts = trim_start_exec(line.as_slice());
                let comment = starts_with(ts.as_slice(), chars_of("//").as_slice());
                let ghost before = views(kept@);
                if !comment {
                    kept.push(line);
                }
                proof {
                    let pre = text_lines_prefix(all, i as int);
                    lemma_filter_push(pre, line@);
                    assert(text_lines_prefix(all, i + 1) == pre.push(line@));
                    if !comment {
                        assert(views(kept@) =~= before.push(line@));
                    }
                }
            } else {
                proof {
                    assert(text_lines_prefix(all, i + 1) == text_lines_prefix(all, i as int));
                }
            }
            i = i + 1;
        }
        proof {
            lemma_text_lines_full(all);
        }
        let mut out: Vec<char> = Vec::new();
        let mut j: usize = 0;
        while j < kept.len()
            invariant
                j <= kept@.len(),
                out@ == join_lines(views(kept@).subrange(0, j as int)),
            decreases kept@.len() - j,
        {
            let ghost pre = views(kept@).subrange(0, j + 1);
            assert(pre.drop_last() =~= views(kept@).subrange(0, j as int));
            assert(pre.last() == kept@[j as int]@);
            if j > 0 {
                out.push('\n');
            }
            let ghost mid = out@;
            crate::text::append_chars(&mut out, kept[j].as_slice());
            proof {
                if j > 0 {
                    assert(out@ =~= join_lines(pre.drop_last()) + seq!['\n'] + pre.last());
                } else {
                    assert(out@ =~= pre[0]);
                }
            }
            j = j + 1;
        }
        assert(views(kept@).subrange(0, kept@.len() as int) =~= views(kept@));
        string_of(out.as_slice())
    }

    /// Where a download is written before it replaces `destination`.
    pub fn partial_path(destination: &str, fallback: &str) -> (r: String)
        ensures
            r@ == partial_path(destination@, fallback@),
    {
        let d = chars_of(destination);
        match extension_exec(d.as_slice()) {
            Some(_) => string_of(concat(d.as_slice(), chars_of(".part").as_slice()).as_slice()),
            None => {
                let dot = vec!['.'];
                assert(dot@ =~= seq!['.']);
                let a = concat3(d.as_slice(), dot.as_slice(), chars_of(fallback).as_slice());
                string_of(concat(a.as_slice(), chars_of(".part").as_slice()).as_slice())
            },
        }
    }
}

fn strip_cr_exec(l: &[char]) -> (r: Vec<char>)
    ensures
        r@ == strip_cr(l@),
{
    if l.len() > 0 && l[l.len() - 1] == '\r' {
        crate::text::slice_to_vec(l, 0, l.len() - 1)
    } else {
        to_vec(l)
    }
}

/// The lines contributed by the first `i` segments of a split text: every
/// segment but the last loses a trailing `\r`, and the last counts only when
/// it is not empty.
pub open spec fn text_lines_prefix(parts: Seq<Seq<char>>, i: int) -> Seq<Seq<char>>
    decreases i,
{
    if i <= 0 || parts.len() == 0 {
        Seq::empty()
    } else {
        let rest = text_lines_prefix(parts, i - 1);
        let k = i - 1;
        if k + 1 < parts.len() {
            rest.push(strip_cr(parts[k]))
        } else if parts[k].len() > 0 {
            rest.push(parts[k])
        } else {
            rest
        }
    }
}

proof fn lemma_text_lines_prefix_step(parts: Seq<Seq<char>>, i: int)
    requires
        0 <= i < parts.len(),
    ensures
        text_lines_prefix(parts, i + 1) == if i + 1 < parts.len() {
            text_lines_prefix(parts, i).push(strip_cr(parts[i]))
        } else if parts[i].len() > 0 {
            text_lines_prefix(parts, i).push(parts[i])
        } else {
            text_lines_prefix(parts, i)
        },
{
}

proof fn lemma_text_lines_body(parts: Seq<Seq<char>>, i: int)
    requires
        0 <= i < parts.len(),
    ensures
        text_lines_prefix(parts, i) == parts.subrange(0, i).map_values(|l: Seq<char>| strip_cr(l)),
    decreases i,
{
    if i > 0 {
        lemma_text_lines_body(parts, i - 1);
        assert(parts.subrange(0, i).map_values(|l: Seq<char>| strip_cr(l)) =~= parts.subrange(
            0,
            i - 1,
        ).map_values(|l: Seq<char>| strip_cr(l)).push(strip_cr(parts[i - 1])));
    } else {
        assert(parts.subrange(0, 0).map_values(|l: Seq<char>| strip_cr(l)) =~= Seq::<Seq<char>>::empty());
    }
}

proof fn lemma_text_lines_full(parts: Seq<Seq<char>>)
    requires
        parts.len() >= 1,
    ensures
        text_lines_prefix(parts, parts.len() as int) == ({
            let body = parts.drop_last().map_values(|l: Seq<char>| strip_cr(l));
            if parts.last().len() > 0 {
                body.push(parts.last())
            } else {
                body
            }
        }),
{
    let n = parts.len() as int;
    lemma_text_lines_body(parts, n - 1);
    assert(parts.subrange(0, n - 1) =~= parts.drop_last());
    lemma_text_lines_prefix_step(parts, n - 1);
}

proof fn lemma_filter_push(s: Seq<Seq<char>>, x: Seq<char>)
    ensures
        code_lines(s.push(x)) == if is_comment_line(x) {
            code_lines(s)
        } else {
            code_lines(s).push(x)
        },
{
    assert(s.push(x).drop_last() =~= s);
}

/// A download is written to a `.part` file, never to its destination.
pub proof fn law_partial_path_is_temporary(destination: Seq<char>, fallback: Seq<char>)
    ensures
        has_suffix(partial_path(destination, fallback), ".part"@),
        partial_path(destination, fallback) != destination,
{
    reveal_strlit(".part");
    let p = partial_path(destination, fallback);
    assert(p.len() > destination.len());
    assert(p.subrange(p.len() - 5, p.len() as int) =~= ".part"@);
}

} // verus!
