//! Choosing a model to run: model references as users type them, the local
//! roster, the completeness of manifests, and the weight files a download
//! may produce.
use vstd::prelude::*;
use crate::hf_hub::{lex_lt, lex_lt_exec};
use crate::manifest::{variant_views, HfVariant, ModelManifest};
use crate::paths::{extension, extension_exec, file_name, file_name_exec};
use crate::text::{
    before_first, before_first_exec, chars_eq, chars_of, concat3, contains_exec, contains_seq,
    eq_ignore_ascii_case, eq_ignore_case, lower, string_of, strip_prefixes, strip_prefixes_exec,
    strip_suffixes, strip_suffixes_exec, to_lower, trim, trim_exec,
};

verus! {

/// A model reference with surrounding whitespace, `hf://` and
/// `https://huggingface.co/` prefixes and trailing slashes removed.
pub open spec fn normalized_reference(s: Seq<char>) -> Seq<char> {
    strip_suffixes(
        strip_prefixes(strip_prefixes(trim(s), "hf://"@), "https://huggingface.co/"@),
        "/"@,
    )
}

/// Normalizes a model reference as typed by a user.
pub fn normalize_model_reference(model_id: &str) -> (r: String)
    ensures
        r@ == normalized_reference(model_id@),
{
    let t = trim_exec(chars_of(model_id).as_slice());
    let a = strip_prefixes_exec(t.as_slice(), chars_of("hf://").as_slice());
    let b = strip_prefixes_exec(a.as_slice(), chars_of("https://huggingface.co/").as_slice());
    let c = strip_suffixes_exec(b.as_slice(), chars_of("/").as_slice());
    string_of(c.as_slice())
}

/// A normalized reference that names a Hugging Face repository
/// (`owner/name`) rather than a roster entry.
pub fn is_repository_reference(normalized: &str) -> (r: bool)
    ensures
        r == contains_seq(normalized@, "/"@),
{
    contains_exec(chars_of(normalized).as_slice(), chars_of("/").as_slice())
}

/// The index of the first roster model whose id equals `id` in any letter
/// case.
pub open spec fn roster_index(ids: Seq<Seq<char>>, id: Seq<char>, i: int) -> Option<int>
    decreases ids.len() - i,
{
    if i < 0 || i >= ids.len() {
        None
    } else if eq_ignore_case(ids[i], id) {
        Some(i)
    } else {
        roster_index(ids, id, i + 1)
    }
}

pub open spec fn manifest_ids(v: Seq<ModelManifest>) -> Seq<Seq<char>> {
    v.map_values(|m: ModelManifest| m.id@)
}

fn roster_find(roster: &Vec<ModelManifest>, id: &str) -> (r: Option<usize>)
    ensures
        match r {
            Some(i) => roster_index(manifest_ids(roster@), id@, 0) == Some(i as int),
            None => roster_index(manifest_ids(roster@), id@, 0) is None,
        },
{
    let ghost ids = manifest_ids(roster@);
    let k = chars_of(id);
    let mut i: usize = 0;
    while i < roster.len()
        invariant
            i <= roster@.len(),
            ids == manifest_ids(roster@),
            k@ == id@,
            roster_index(ids, id@, 0) == roster_index(ids, id@, i as int),
        decreases roster@.len() - i,
    {
        assert(ids[i as int] == roster@[i as int].id@);
        if eq_ignore_ascii_case(chars_of(roster[i].id.as_str()).as_slice(), k.as_slice()) {
            return Some(i);
        }
        i = i + 1;
    }
    None
}

/// The roster entry for a model name, or the error that explains how to
/// name a model that is not in the roster.
pub fn find_roster_model(roster: &Vec<ModelManifest>, normalized: &str) -> (r: Result<usize, String>)
    ensures
        match roster_index(manifest_ids(roster@), normalized@, 0) {
            Some(i) => r == Ok::<usize, String>(i as usize),
            None => r matches Err(e) && e@ == "Model '"@ + normalized@
                + "' is not present in the local registry. Use a Hugging Face owner/repository ID or run 'bitshit list'."@,
        },
{
    match roster_find(roster, normalized) {
        Some(i) => Ok(i),
        None => Err(
            string_of(
                concat3(
                    chars_of("Model '").as_slice(),
                    chars_of(normalized).as_slice(),
                    chars_of(
                        "' is not present in the local registry. Use a Hugging Face owner/repository ID or run 'bitshit list'.",
                    ).as_slice(),
                ).as_slice(),
            ),
        ),
    }
}

/// The file name of a variant choice shown as `<file> (<size>)`.
pub fn selected_filename(selection: &str) -> (r: String)
    ensures
        r@ == before_first(selection@, " ("@),
{
    string_of(before_first_exec(chars_of(selection).as_slice(), chars_of(" (").as_slice()).as_slice())
}

/// The size of the first variant with the given file name, 0 when none has it.
pub open spec fn variant_size(variants: Seq<(Seq<char>, u128)>, filename: Seq<char>) -> u128
    decreases variants.len(),
{
    if variants.len() == 0 {
        0
    } else if variants[0].0 == filename {
        variants[0].1
    } else {
        variant_size(variants.drop_first(), filename)
    }
}

/// The size in bytes of the chosen variant.
pub fn selected_variant_size(variants: &Vec<HfVariant>, filename: &str) -> (r: u128)
    ensures
        r == variant_size(variant_views(variants@), filename@),
{
    let ghost all = variant_views(variants@);
    let f = chars_of(filename);
    let mut i: usize = 0;
    assert(all.subrange(0, all.len() as int) =~= all);
    while i < variants.len()
        invariant
            i <= variants@.len(),
            all == variant_views(variants@),
            f@ == filename@,
            variant_size(all, filename@) == variant_size(all.subrange(i as int, all.len() as int), filename@),
        decreases variants@.len() - i,
    {
        let ghost rest = all.subrange(i as int, all.len() as int);
        assert(rest.drop_first() =~= all.subrange(i + 1, all.len() as int));
        assert(rest[0] == variants@[i as int]@);
        if chars_eq(chars_of(variants[i].filename.as_str()).as_slice(), f.as_slice()) {
            return variants[i].size_bytes;
        }
        i = i + 1;
    }
    0
}

/// A manifest that cannot be downloaded or run: no id, an id that mentions
/// `unknown`, no file name, or the file name `unknown`.
pub open spec fn incomplete_manifest(id: Seq<char>, filename: Seq<char>) -> bool {
    trim(id).len() == 0 || contains_seq(lower(id), "unknown"@) || trim(filename).len() == 0
        || eq_ignore_case(filename, "unknown"@)
}

fn incomplete_exec(id: &str, filename: &str) -> (r: bool)
    ensures
        r == incomplete_manifest(id@, filename@),
{
    let i = chars_of(id);
    let f = chars_of(filename);
    trim_exec(i.as_slice()).len() == 0 || contains_exec(
        to_lower(i.as_slice()).as_slice(),
        chars_of("unknown").as_slice(),
    ) || trim_exec(f.as_slice()).len() == 0 || eq_ignore_ascii_case(
        f.as_slice(),
        chars_of("unknown").as_slice(),
    )
}

/// Rejects a stale manifest before it is run.
pub fn reject_stale_manifest(manifest: &ModelManifest) -> (r: Result<(), String>)
    ensures
        incomplete_manifest(manifest.id@, manifest.huggingface_filename@) ==> (r matches Err(e)
            && e@ == "Refusing incomplete model manifest '"@ + manifest.id@
            + "'. Remove the stale legacy entry and synchronize the model again."@),
        !incomplete_manifest(manifest.id@, manifest.huggingface_filename@) ==> r is Ok,
{
    if incomplete_exec(manifest.id.as_str(), manifest.huggingface_filename.as_str()) {
        return Err(
            string_of(
                concat3(
                    chars_of("Refusing incomplete model manifest '").as_slice(),
                    chars_of(manifest.id.as_str()).as_slice(),
                    chars_of("'. Remove the stale legacy entry and synchronize the model again.").as_slice(),
                ).as_slice(),
            ),
        );
    }
    Ok(())
}

/// Whether a model file is an ONNX model (by its extension, in any case).
pub fn is_onnx_model_path(path: &str) -> (r: bool)
    ensures
        r == (match extension(path@) {
            Some(e) => lower(e) == "onnx"@,
            None => false,
        }),
{
    match extension_exec(chars_of(path).as_slice()) {
        Some(e) => chars_eq(to_lower(e.as_slice()).as_slice(), chars_of("onnx").as_slice()),
        None => false,
    }
}

/// A model offered at start-up, and whether it is in the local store.
pub struct ModelRecommendation {
    pub manifest: ModelManifest,
    pub is_cached: bool,
}

/// A model that can be loaded at start-up: cached, with a real id and file
/// name, and a local path that names an existing file.
pub open spec fn valid_boot_model(
    is_cached: bool,
    id: Seq<char>,
    filename: Seq<char>,
    local_path: Option<Seq<char>>,
    local_file_exists: bool,
) -> bool {
    let lp = match local_path {
        Some(p) => trim(p),
        None => Seq::empty(),
    };
    &&& is_cached
    &&& trim(id).len() > 0
    &&& !eq_ignore_case(trim(id), "unknown"@)
    &&& trim(filename).len() > 0
    &&& !eq_ignore_case(trim(filename), "unknown"@)
    &&& lp.len() > 0
    &&& local_file_exists
}

/// Whether a recommended model can be loaded at start-up;
/// `local_file_exists` tells whether its trimmed local path is a file.
pub fn is_valid_boot_model(model: &ModelRecommendation, local_file_exists: bool) -> (r: bool)
    ensures
        r == valid_boot_model(
            model.is_cached,
            model.manifest.id@,
            model.manifest.huggingface_filename@,
            crate::manifest::opt_view(model.manifest.local_path),
            local_file_exists,
        ),
{
    let id = trim_exec(chars_of(model.manifest.id.as_str()).as_slice());
    let f = trim_exec(chars_of(model.manifest.huggingface_filename.as_str()).as_slice());
    let lp = match &model.manifest.local_path {
        Some(p) => trim_exec(chars_of(p.as_str()).as_slice()),
        None => Vec::new(),
    };
    proof {
        if model.manifest.local_path is None {
            assert(lp@ =~= Seq::<char>::empty());
        }
    }
    let unknown = chars_of("unknown");
    model.is_cached && id.len() > 0 && !eq_ignore_ascii_case(id.as_slice(), unknown.as_slice())
        && f.len() > 0 && !eq_ignore_ascii_case(f.as_slice(), unknown.as_slice()) && lp.len() > 0
        && local_file_exists
}

/// The trimmed local path of a model, which start-up checks for a file.
pub fn boot_model_path(model: &ModelRecommendation) -> (r: String)
    ensures
        r@ == match crate::manifest::opt_view(model.manifest.local_path) {
            Some(p) => trim(p),
            None => Seq::empty(),
        },
{
    match &model.manifest.local_path {
        Some(p) => string_of(trim_exec(chars_of(p.as_str()).as_slice()).as_slice()),
        None => {
            let r = String::new();
            r
        },
    }
}

/// The manager through which every model install and repair goes.
pub struct ModelManager {
    pub registry_url: String,
    pub base_models_dir: String,
}

impl ModelManager {
    pub fn new(registry_url: String, base_models_dir: String) -> (r: Self)
        ensures
            r.registry_url@ == registry_url@,
            r.base_models_dir@ == base_models_dir@,
    {
        Self { registry_url, base_models_dir }
    }

    /// The roster entry for `model_id` (any letter case), searching the
    /// local roster before the remote one.
    pub fn find_model(
        local: &Vec<ModelManifest>,
        remote: Option<&Vec<ModelManifest>>,
        model_id: &str,
    ) -> (r: Result<(bool, usize), String>)
        ensures
            match roster_index(manifest_ids(local@), model_id@, 0) {
                Some(i) => r == Ok::<(bool, usize), String>((true, i as usize)),
                None => match remote {
                    Some(v) => match roster_index(manifest_ids(v@), model_id@, 0) {
                        Some(j) => r == Ok::<(bool, usize), String>((false, j as usize)),
                        None => r matches Err(e) && e@ == "Model ID '"@ + model_id@
                            + "' was not found in the registry"@,
                    },
                    None => r matches Err(e) && e@ == "Model ID '"@ + model_id@
                        + "' was not found in the registry"@,
                },
            },
    {
        match roster_find(local, model_id) {
            Some(i) => {
                return Ok((true, i));
            },
            None => {},
        }
        match remote {
            Some(v) => match roster_find(v, model_id) {
                Some(j) => {
                    return Ok((false, j));
                },
                None => {},
            },
            None => {},
        }
        Err(
            string_of(
                concat3(
                    chars_of("Model ID '").as_slice(),
                    chars_of(model_id).as_slice(),
                    chars_of("' was not found in the registry").as_slice(),
                ).as_slice(),
            ),
        )
    }

    /// Rejects an incomplete manifest before it is pulled.
    pub fn check_manifest(manifest: &ModelManifest) -> (r: Result<(), String>)
        ensures
            incomplete_manifest(manifest.id@, manifest.huggingface_filename@) ==> (r matches Err(e)
                && e@ == "Refusing incomplete model manifest '"@ + manifest.id@ + "'"@),
            !incomplete_manifest(manifest.id@, manifest.huggingface_filename@) ==> r is Ok,
    {
        if incomplete_exec(manifest.id.as_str(), manifest.huggingface_filename.as_str()) {
            return Err(
                string_of(
                    concat3(
                        chars_of("Refusing incomplete model manifest '").as_slice(),
                        chars_of(manifest.id.as_str()).as_slice(),
                        chars_of("'").as_slice(),
                    ).as_slice(),
                ),
            );
        }
        Ok(())
    }
}

/// The file name a model download is stored under: the file name of the
/// requested path, unless it is blank or `unknown`.
pub open spec fn stored_file_name(filename: Seq<char>) -> Option<Seq<char>> {
    match file_name(filename) {
        Some(n) => if trim(n).len() > 0 && !eq_ignore_case(n, "unknown"@) {
            Some(n)
        } else {
            None
        },
        None => None,
    }
}

/// The file name a model download is stored under, or the error that names
/// the model and the requested file.
pub fn weight_file_name(model_id: &str, filename: &str) -> (r: Result<String, String>)
    ensures
        match stored_file_name(filename@) {
            Some(n) => r matches Ok(s) && s@ == n,
            None => r matches Err(e) && e@ == "Invalid model filename for "@ + model_id@ + ": "@
                + filename@,
        },
{
    match file_name_exec(chars_of(filename).as_slice()) {
        Some(n) => {
            if trim_exec(n.as_slice()).len() > 0 && !eq_ignore_ascii_case(
                n.as_slice(),
                chars_of("unknown").as_slice(),
            ) {
                return Ok(string_of(n.as_slice()));
            }
        },
        None => {},
    }
    let a = concat3(chars_of("Invalid model filename for ").as_slice(), chars_of(model_id).as_slice(), chars_of(": ").as_slice());
    Err(string_of(crate::text::concat(a.as_slice(), chars_of(filename).as_slice()).as_slice()))
}

/// Refuses a download without a URL.
pub fn check_download_url(url: &str) -> (r: Result<(), String>)
    ensures
        trim(url@).len() == 0 ==> (r matches Err(e) && e@ == "Model download URL is empty"@),
        trim(url@).len() > 0 ==> r is Ok,
{
    if trim_exec(chars_of(url).as_slice()).len() == 0 {
        return Err(string_of(chars_of("Model download URL is empty").as_slice()));
    }
    Ok(())
}

/// The roster entry to remove, or the error that names the missing model.
pub fn find_local_model(roster: &Vec<ModelManifest>, model_id: &str) -> (r: Result<usize, String>)
    ensures
        match roster_index(manifest_ids(roster@), model_id@, 0) {
            Some(i) => r == Ok::<usize, String>(i as usize),
            None => r matches Err(e) && e@ == "Model ID '"@ + model_id@
                + "' was not found in the local registry"@,
        },
{
    match roster_find(roster, model_id) {
        Some(i) => Ok(i),
        None => Err(
            string_of(
                concat3(
                    chars_of("Model ID '").as_slice(),
                    chars_of(model_id).as_slice(),
                    chars_of("' was not found in the local registry").as_slice(),
                ).as_slice(),
            ),
        ),
    }
}

/// The port the gateway listens on: `BITSHIT_PORT` when it parses as a
/// port number, else 8000.
pub open spec fn gateway_port(value: Option<Seq<char>>) -> u16 {
    match value {
        Some(v) => match crate::text::parse_unsigned(v, 65535) {
            Some(n) => n as u16,
            None => 8000,
        },
        None => 8000,
    }
}

pub fn resolve_port(value: Option<&str>) -> (r: u16)
    ensures
        r == gateway_port(
            match value {
                Some(v) => Some(v@),
                None => None,
            },
        ),
{
    match value {
        Some(v) => match crate::text::parse_unsigned_exec(chars_of(v).as_slice(), 65535) {
            Some(n) => n as u16,
            None => 8000,
        },
        None => 8000,
    }
}

/// The address the gateway binds: all interfaces at `port`.
pub fn listen_address(port: u16) -> (r: String)
    ensures
        r@ == "0.0.0.0:"@ + crate::text::decimal(port as nat),
{
    let d = crate::text::decimal_exec(port as u64);
    string_of(crate::text::concat(chars_of("0.0.0.0:").as_slice(), d.as_slice()).as_slice())
}

/// Whether the gateway was asked to recalibrate the hardware (`--setup`).
pub fn wants_setup(args: &Vec<String>) -> (r: bool)
    ensures
        r == crate::text::string_views(args@).contains("--setup"@),
{
    let ghost all = crate::text::string_views(args@);
    let flag = chars_of("--setup");
    let mut i: usize = 0;
    while i < args.len()
        invariant
            i <= args@.len(),
            all == crate::text::string_views(args@),
            flag@ == "--setup"@,
            forall|k: int| 0 <= k < i ==> all[k] != "--setup"@,
        decreases args@.len() - i,
    {
        if chars_eq(chars_of(args[i].as_str()).as_slice(), flag.as_slice()) {
            assert(all[i as int] == "--setup"@);
            return true;
        }
        i = i + 1;
    }
    false
}

// ---------------------------------------------------------------------------
// Downloaded models offered for deletion
// ---------------------------------------------------------------------------

pub open spec fn roster_names(v: Seq<ModelManifest>) -> Seq<Seq<char>> {
    v.map_values(|m: ModelManifest| m.name@)
}

/// A roster model that is in the store: it records a local path, or the
/// store holds its file (`cached[i]`).
pub open spec fn is_downloaded(roster: Seq<ModelManifest>, cached: Seq<bool>, i: int) -> bool {
    0 <= i < roster.len() && (roster[i].local_path is Some || (i < cached.len() && cached[i]))
}

/// Ordered by name, and by roster position among equal names.
pub open spec fn key_before(names: Seq<Seq<char>>, a: usize, b: usize) -> bool {
    lex_lt(names[a as int], names[b as int]) || (names[a as int] == names[b as int] && a < b)
}

pub open spec fn in_key_order(names: Seq<Seq<char>>, s: Seq<usize>) -> bool {
    forall|i: int, j: int| 0 <= i < j < s.len() ==> key_before(names, #[trigger] s[i], #[trigger] s[j])
}

/// Drops each entry whose id equals that of the entry kept before it.
pub open spec fn dedup_by_id(ids: Seq<Seq<char>>, s: Seq<usize>) -> Seq<usize>
    decreases s.len(),
{
    if s.len() == 0 {
        Seq::empty()
    } else {
        let d = dedup_by_id(ids, s.drop_last());
        if d.len() == 0 || ids[d.last() as int] != ids[s.last() as int] {
            d.push(s.last())
        } else {
            d
        }
    }
}

/// The downloaded roster models offered for deletion, as roster positions:
/// sorted by name (stably), then with consecutive repeats of an id dropped.
pub fn downloaded_model_choices(roster: &Vec<ModelManifest>, cached: &Vec<bool>) -> (r: Vec<usize>)
    ensures
        exists|s: Seq<usize>|
            in_key_order(roster_names(roster@), s) && (forall|v: usize|
                s.contains(v) <==> is_downloaded(roster@, cached@, v as int)) && r@ == dedup_by_id(
                manifest_ids(roster@),
                s,
            ),
{
    let ghost names = roster_names(roster@);
    let mut out: Vec<usize> = Vec::new();
    let mut i: usize = 0;
    while i < roster.len()
        invariant
            i <= roster@.len(),
            names == roster_names(roster@),
            forall|k: int| 0 <= k < out@.len() ==> #[trigger] out@[k] < i,
            in_key_order(names, out@),
            forall|v: usize| out@.contains(v) <==> (v < i && is_downloaded(roster@, cached@, v as int)),
        decreases roster@.len() - i,
    {
        let downloaded = roster[i].local_path.is_some() || (i < cached.len() && cached[i]);
        if downloaded {
            assert(is_downloaded(roster@, cached@, i as int));
            let xn = chars_of(roster[i].name.as_str());
            assert(names[i as int] == xn@);
            let mut pos: usize = 0;
            while pos < out.len() && !lex_lt_exec(xn.as_slice(), chars_of(roster[out[pos]].name.as_str()).as_slice())
                invariant
                    pos <= out@.len(),
                    i < roster@.len(),
                    names == roster_names(roster@),
                    xn@ == names[i as int],
                    forall|k: int| 0 <= k < out@.len() ==> #[trigger] out@[k] < i,
                    forall|k: int| 0 <= k < pos ==> !lex_lt(names[i as int], names[#[trigger] out@[k] as int]),
                decreases out@.len() - pos,
            {
                assert(names[out@[pos as int] as int] == roster@[out@[pos as int] as int].name@);
                pos = pos + 1;
            }
            proof {
                if pos < out@.len() {
                    assert(names[out@[pos as int] as int] == roster@[out@[pos as int] as int].name@);
                }
            }
            let ghost old = out@;
            out.insert(pos, i);
            proof {
                let new = out@;
                assert(new =~= old.insert(pos as int, i));
                assert forall|a: int, b: int| 0 <= a < b < new.len() implies key_before(
                    names,
                    #[trigger] new[a],
                    #[trigger] new[b],
                ) by {
                    if b < pos {
                        assert(new[a] == old[a] && new[b] == old[b]);
                    } else if b == pos {
                        assert(new[a] == old[a]);
                        assert(!lex_lt(names[i as int], names[old[a] as int]));
                        crate::hf_hub::lex_total(names[old[a] as int], names[i as int]);
                    } else if a < pos {
                        assert(new[a] == old[a] && new[b] == old[b - 1]);
                    } else if a == pos {
                        assert(new[b] == old[b - 1]);
                        assert(lex_lt(names[i as int], names[old[pos as int] as int]));
                        if b - 1 > pos {
                            assert(key_before(names, old[pos as int], old[b - 1]));
                            if lex_lt(names[old[pos as int] as int], names[old[b - 1] as int]) {
                                crate::hf_hub::lemma_lex_lt_transitive(
                                    names[i as int],
                                    names[old[pos as int] as int],
                                    names[old[b - 1] as int],
                                );
                            }
                        }
                    } else {
                        assert(new[a] == old[a - 1] && new[b] == old[b - 1]);
                    }
                }
                assert forall|v: usize| new.contains(v) <==> (v < i + 1 && is_downloaded(roster@, cached@, v as int)) by {
                    if new.contains(v) {
                        let k = choose|k: int| 0 <= k < new.len() && new[k] == v;
                        if k < pos {
                            assert(old[k] == v);
                            assert(old.contains(v));
                        } else if k > pos {
                            assert(old[k - 1] == v);
                            assert(old.contains(v));
                        } else {
                            assert(v == i);
                        }
                    }
                    if v < i && is_downloaded(roster@, cached@, v as int) {
                        assert(old.contains(v));
                        let k = choose|k: int| 0 <= k < old.len() && old[k] == v;
                        if k < pos {
                            assert(new[k] == v);
                        } else {
                            assert(new[k + 1] == v);
                        }
                    }
                    if v == i {
                        assert(new[pos as int] == v);
                    }
                }
                assert forall|k: int| 0 <= k < new.len() implies #[trigger] new[k] < i + 1 by {
                    if k < pos {
                        assert(new[k] == old[k]);
                    } else if k > pos {
                        assert(new[k] == old[k - 1]);
                    }
                }
            }
        } else {
            proof {
                assert forall|v: usize| out@.contains(v) <==> (v < i + 1 && is_downloaded(roster@, cached@, v as int)) by {
                    if v == i {
                        if out@.contains(v) {
                            let k = choose|k: int| 0 <= k < out@.len() && out@[k] == v;
                            assert(out@[k] < i);
                        }
                    }
                }
            }
        }
        i = i + 1;
    }
    let ghost ids = manifest_ids(roster@);
    let mut kept: Vec<usize> = Vec::new();
    let mut k: usize = 0;
    assert(out@.subrange(0, 0) =~= Seq::<usize>::empty());
    while k < out.len()
        invariant
            k <= out@.len(),
            ids == manifest_ids(roster@),
            forall|j: int| 0 <= j < out@.len() ==> #[trigger] out@[j] < roster@.len(),
            kept@ == dedup_by_id(ids, out@.subrange(0, k as int)),
            forall|j: int| 0 <= j < kept@.len() ==> #[trigger] kept@[j] < roster@.len(),
        decreases out@.len() - k,
    {
        let ghost pre = out@.subrange(0, k + 1);
        assert(pre.drop_last() =~= out@.subrange(0, k as int));
        assert(pre.last() == out@[k as int]);
        let x = out[k];
        let keep = if kept.len() == 0 {
            true
        } else {
            let last = kept[kept.len() - 1];
            assert(ids[last as int] == roster@[last as int].id@);
            assert(ids[x as int] == roster@[x as int].id@);
            !chars_eq(chars_of(roster[last].id.as_str()).as_slice(), chars_of(roster[x].id.as_str()).as_slice())
        };
        if keep {
            kept.push(x);
        }
        k = k + 1;
    }
    assert(out@.subrange(0, out@.len() as int) =~= out@);
    kept
}

/// The label under which a downloaded model is offered: `name [format]`.
pub fn choice_label(manifest: &ModelManifest) -> (r: String)
    ensures
        r@ == manifest.name@ + " ["@ + manifest.architecture_type@ + "]"@,
{
    let a = concat3(chars_of(manifest.name.as_str()).as_slice(), chars_of(" [").as_slice(), chars_of(manifest.architecture_type.as_str()).as_slice());
    string_of(crate::text::concat(a.as_slice(), chars_of("]").as_slice()).as_slice())
}

/// Whether model `i` can be loaded at start-up (`exists[i]`: its local path
/// is a file; missing observations count as absent) and, when an active id
/// is given, has that id.
pub open spec fn boot_candidate(
    models: Seq<ModelRecommendation>,
    exists: Seq<bool>,
    active: Option<Seq<char>>,
    i: int,
) -> bool {
    &&& 0 <= i < models.len()
    &&& valid_boot_model(
        models[i].is_cached,
        models[i].manifest.id@,
        models[i].manifest.huggingface_filename@,
        crate::manifest::opt_view(models[i].manifest.local_path),
        i < exists.len() && exists[i],
    )
    &&& match active {
        Some(a) => models[i].manifest.id@ == a,
        None => true,
    }
}

/// The first start-up candidate from position `i` on.
pub open spec fn first_boot_candidate(
    models: Seq<ModelRecommendation>,
    exists: Seq<bool>,
    active: Option<Seq<char>>,
    i: int,
) -> Option<int>
    decreases models.len() - i,
{
    if i < 0 || i >= models.len() {
        None
    } else if boot_candidate(models, exists, active, i) {
        Some(i)
    } else {
        first_boot_candidate(models, exists, active, i + 1)
    }
}

/// The model mounted at start-up: the first loadable one or, when a model is
/// already active, the first loadable one with its id.
pub fn select_boot_model(
    models: &Vec<ModelRecommendation>,
    local_file_exists: &Vec<bool>,
    active_id: Option<&str>,
) -> (r: Option<usize>)
    ensures
        match r {
            Some(i) => first_boot_candidate(
                models@,
                local_file_exists@,
                match active_id {
                    Some(a) => Some(a@),
                    None => None,
                },
                0,
            ) == Some(i as int),
            None => first_boot_candidate(
                models@,
                local_file_exists@,
                match active_id {
                    Some(a) => Some(a@),
                    None => None,
                },
                0,
            ) is None,
        },
{
    let ghost active = match active_id {
        Some(a) => Some(a@),
        None => None::<Seq<char>>,
    };
    let mut i: usize = 0;
    while i < models.len()
        invariant
            i <= models@.len(),
            active == match active_id {
                Some(a) => Some(a@),
                None => None::<Seq<char>>,
            },
            first_boot_candidate(models@, local_file_exists@, active, 0) == first_boot_candidate(
                models@,
                local_file_exists@,
                active,
                i as int,
            ),
        decreases models@.len() - i,
    {
        let exists = i < local_file_exists.len() && local_file_exists[i];
        let valid = is_valid_boot_model(&models[i], exists);
        let matches = match active_id {
            Some(a) => chars_eq(chars_of(models[i].manifest.id.as_str()).as_slice(), chars_of(a).as_slice()),
            None => true,
        };
        if valid && matches {
            return Some(i);
        }
        i = i + 1;
    }
    None
}

} // verus!
