//! The visible model store: one canonical directory per model, shared by
//! download, cache lookup, purge and cleanup, plus the structural metadata
//! written next to downloaded weights.
use vstd::prelude::*;
use crate::manifest::{copy_string, ModelManifest};
use crate::paths::{
    component_segments, components, extension, extension_exec, join, join_components,
    join_components_exec, join_exec, name_extension, parent_marker,
};
use crate::text::{
    rfind, strip_prefixes,
    after_last_char, after_last_char_exec, append_chars, chars_eq, chars_of, concat, decimal,
    decimal_exec, digit_char, digit_char_exec, eq_ignore_ascii_case, eq_ignore_case, lower,
    parse_u64_exec, parse_unsigned, replace_all, replace_exec, split_char, split_char_exec,
    string_of, to_lower, to_vec, trim_char, trim_char_exec, views,
};
use crate::hf_hub::{meta_get, pair_views, resolve_url};

verus! {

// ---------------------------------------------------------------------------
// Directory names
// ---------------------------------------------------------------------------

/// Characters that cannot appear in a model directory name become `-`.
pub open spec fn sanitize_char(c: char) -> char {
    if c == ':' || c == '/' || c == '\\' || c == ' ' {
        '-'
    } else {
        c
    }
}

/// A model identifier made safe as a directory name: separators and spaces
/// become `-`, and leading and trailing `-` are removed.
pub open spec fn sanitized(id: Seq<char>) -> Seq<char> {
    trim_char(id.map_values(|c: char| sanitize_char(c)), '-')
}

/// The canonical directory name of a model: the sanitized last path segment
/// of its identifier.
pub open spec fn model_dir_name(model_id: Seq<char>) -> Seq<char> {
    sanitized(after_last_char(model_id, '/'))
}

/// `<models root>/<category>/<model directory name>`.
pub open spec fn model_dir(root: Seq<char>, category: Seq<char>, model_id: Seq<char>) -> Seq<char> {
    join(join(root, category), model_dir_name(model_id))
}

pub fn sanitized_exec(id: &[char]) -> (r: Vec<char>)
    ensures
        r@ == sanitized(id@),
{
    let mut m: Vec<char> = Vec::new();
    let mut i: usize = 0;
    while i < id.len()
        invariant
            i <= id@.len(),
            m@ == id@.subrange(0, i as int).map_values(|c: char| sanitize_char(c)),
        decreases id@.len() - i,
    {
        let c = id[i];
        let d = if c == ':' || c == '/' || c == '\\' || c == ' ' {
            '-'
        } else {
            c
        };
        m.push(d);
        assert(id@.subrange(0, i + 1).map_values(|c: char| sanitize_char(c)) =~= id@.subrange(
            0,
            i as int,
        ).map_values(|c: char| sanitize_char(c)).push(d));
        i = i + 1;
    }
    assert(id@.subrange(0, id@.len() as int) =~= id@);
    trim_char_exec(m.as_slice(), '-')
}

/// A model identifier made safe as a directory name (`sanitized_model_id`).
pub fn sanitized_model_id(id: &str) -> (r: String)
    ensures
        r@ == sanitized(id@),
{
    let c = chars_of(id);
    let s = sanitized_exec(c.as_slice());
    string_of(s.as_slice())
}

/// A directory entry: its file name and whether it is a regular file.
pub struct DirEntryInfo {
    pub name: String,
    pub is_file: bool,
}

impl View for DirEntryInfo {
    type V = (Seq<char>, bool);

    open spec fn view(&self) -> (Seq<char>, bool) {
        (self.name@, self.is_file)
    }
}

pub open spec fn entry_infos(v: Seq<DirEntryInfo>) -> Seq<(Seq<char>, bool)> {
    v.map_values(|e: DirEntryInfo| e@)
}

/// A file extension that the store accepts as model weights.
pub open spec fn is_weight_extension(e: Seq<char>) -> bool {
    e == "gguf"@ || e == "bin"@ || e == "onnx"@ || e == "safetensors"@
}

/// A regular file in `dir` whose lower-cased extension marks model weights.
pub open spec fn is_weight_entry(dir: Seq<char>, entry: (Seq<char>, bool)) -> bool {
    entry.1 && match extension(join(dir, entry.0)) {
        Some(e) => is_weight_extension(lower(e)),
        None => false,
    }
}

/// The path of the first weight file among the entries, in listing order.
pub open spec fn first_weight(dir: Seq<char>, entries: Seq<(Seq<char>, bool)>) -> Option<Seq<char>>
    decreases entries.len(),
{
    if entries.len() == 0 {
        None
    } else if is_weight_entry(dir, entries[0]) {
        Some(join(dir, entries[0].0))
    } else {
        first_weight(dir, entries.drop_first())
    }
}

/// A cached model file: the requested file itself, or else the first weight
/// file listed in the model directory (when it could be read).
pub open spec fn cached_path(
    dir: Seq<char>,
    filename: Seq<char>,
    exact_is_file: bool,
    listing: Option<Seq<(Seq<char>, bool)>>,
) -> Option<Seq<char>> {
    if exact_is_file {
        Some(join(dir, crate::paths::base_name(filename)))
    } else {
        match listing {
            Some(entries) => first_weight(dir, entries),
            None => None,
        }
    }
}

pub open spec fn opt_infos(o: Option<&Vec<DirEntryInfo>>) -> Option<Seq<(Seq<char>, bool)>> {
    match o {
        Some(v) => Some(entry_infos(v@)),
        None => None,
    }
}

fn is_weight_extension_exec(e: &[char]) -> (r: bool)
    ensures
        r == is_weight_extension(e@),
{
    chars_eq(e, chars_of("gguf").as_slice()) || chars_eq(e, chars_of("bin").as_slice())
        || chars_eq(e, chars_of("onnx").as_slice()) || chars_eq(
        e,
        chars_of("safetensors").as_slice(),
    )
}

fn first_weight_exec(dir: &[char], entries: &Vec<DirEntryInfo>) -> (r: Option<Vec<char>>)
    ensures
        match r {
            Some(p) => first_weight(dir@, entry_infos(entries@)) == Some(p@),
            None => first_weight(dir@, entry_infos(entries@)) is None,
        },
{
    let ghost all = entry_infos(entries@);
    let mut i: usize = 0;
    assert(all.subrange(0, all.len() as int) =~= all);
    while i < entries.len()
        invariant
            i <= entries@.len(),
            all == entry_infos(entries@),
            first_weight(dir@, all) == first_weight(dir@, all.subrange(i as int, all.len() as int)),
        decreases entries@.len() - i,
    {
        let ghost rest = all.subrange(i as int, all.len() as int);
        assert(rest[0] == entries@[i as int]@);
        assert(rest.drop_first() =~= all.subrange(i + 1, all.len() as int));
        let name = chars_of(entries[i].name.as_str());
        let p = join_exec(dir, name.as_slice());
        if entries[i].is_file {
            match extension_exec(p.as_slice()) {
                Some(e) => {
                    let l = to_lower(e.as_slice());
                    if is_weight_extension_exec(l.as_slice()) {
                        return Some(p);
                    }
                },
                None => {},
            }
        }
        i = i + 1;
    }
    None
}

/// Paths to delete after an interrupted download: `.part` and `.lock` files.
pub open spec fn partial_files(dir: Seq<char>, entries: Seq<(Seq<char>, bool)>) -> Seq<Seq<char>>
    decreases entries.len(),
{
    if entries.len() == 0 {
        Seq::empty()
    } else {
        let rest = partial_files(dir, entries.drop_last());
        let p = join(dir, entries.last().0);
        if extension(p) == Some("part"@) || extension(p) == Some("lock"@) {
            rest.push(p)
        } else {
            rest
        }
    }
}

/// Everything that is written next to a downloaded model.
pub struct ModelDownloader;

impl ModelDownloader {
    /// The canonical directory name of a model.
    pub fn model_dir_name(model_id: &str) -> (r: String)
        ensures
            r@ == model_dir_name(model_id@),
    {
        let c = chars_of(model_id);
        let last = after_last_char_exec(c.as_slice(), '/');
        let s = sanitized_exec(last.as_slice());
        string_of(s.as_slice())
    }

    /// The directory of a model in the store rooted at `models_root`.
    pub fn model_dir(models_root: &str, category: &str, model_id: &str) -> (r: String)
        ensures
            r@ == model_dir(models_root@, category@, model_id@),
    {
        let root = chars_of(models_root);
        let cat = chars_of(category);
        let id = chars_of(model_id);
        let last = after_last_char_exec(id.as_slice(), '/');
        let name = sanitized_exec(last.as_slice());
        let base = join_exec(root.as_slice(), cat.as_slice());
        let d = join_exec(base.as_slice(), name.as_slice());
        string_of(d.as_slice())
    }

    /// The path at which `filename` of a model is expected in the store.
    pub fn expected_path(models_root: &str, category: &str, model_id: &str, filename: &str) -> (r:
        String)
        ensures
            r@ == join(
                model_dir(models_root@, category@, model_id@),
                crate::paths::base_name(filename@),
            ),
    {
        let d = Self::model_dir(models_root, category, model_id);
        let f = chars_of(filename);
        let b = crate::paths::base_name_exec(f.as_slice());
        let p = join_exec(chars_of(d.as_str()).as_slice(), b.as_slice());
        string_of(p.as_slice())
    }

    /// The cached model file, given whether the expected file exists and the
    /// listing of the model directory (`None` when it cannot be read).
    pub fn get_cached_path(
        models_root: &str,
        category: &str,
        model_id: &str,
        filename: &str,
        exact_is_file: bool,
        listing: Option<&Vec<DirEntryInfo>>,
    ) -> (r: Option<String>)
        ensures
            match r {
                Some(p) => cached_path(
                    model_dir(models_root@, category@, model_id@),
                    filename@,
                    exact_is_file,
                    opt_infos(listing),
                ) == Some(p@),
                None => cached_path(
                    model_dir(models_root@, category@, model_id@),
                    filename@,
                    exact_is_file,
                    opt_infos(listing),
                ) is None,
            },
    {
        if exact_is_file {
            return Some(Self::expected_path(models_root, category, model_id, filename));
        }
        match listing {
            Some(entries) => {
                let d = Self::model_dir(models_root, category, model_id);
                match first_weight_exec(chars_of(d.as_str()).as_slice(), entries) {
                    Some(p) => Some(string_of(p.as_slice())),
                    None => None,
                }
            },
            None => None,
        }
    }

    /// Whether a model file is present in the store.
    pub fn is_model_cached(
        models_root: &str,
        category: &str,
        model_id: &str,
        filename: &str,
        exact_is_file: bool,
        listing: Option<&Vec<DirEntryInfo>>,
    ) -> (r: bool)
        ensures
            r == cached_path(
                model_dir(models_root@, category@, model_id@),
                filename@,
                exact_is_file,
                opt_infos(listing),
            ) is Some,
    {
        Self::get_cached_path(models_root, category, model_id, filename, exact_is_file, listing).is_some()
    }

    /// The directory to delete for a model, or the error when it does not exist.
    pub fn purge_model(models_root: &str, category: &str, model_id: &str, exists: bool) -> (r:
        Result<String, String>)
        ensures
            exists ==> (r matches Ok(p) && p@ == model_dir(models_root@, category@, model_id@)),
            !exists ==> (r matches Err(e) && e@ == "Model directory not found: "@ + model_dir(
                models_root@,
                category@,
                model_id@,
            )),
    {
        let d = Self::model_dir(models_root, category, model_id);
        if !exists {
            let m = concat(chars_of("Model directory not found: ").as_slice(), chars_of(d.as_str()).as_slice());
            return Err(string_of(m.as_slice()));
        }
        Ok(d)
    }

    /// The leftover `.part` and `.lock` files of an interrupted download in the
    /// model directory listing (none when the directory cannot be read).
    pub fn cleanup_partial_download(
        models_root: &str,
        category: &str,
        model_id: &str,
        listing: Option<&Vec<DirEntryInfo>>,
    ) -> (r: Vec<String>)
        ensures
            r@.map_values(|s: String| s@) == match listing {
                Some(v) => partial_files(
                    model_dir(models_root@, category@, model_id@),
                    entry_infos(v@),
                ),
                None => Seq::empty(),
            },
    {
        let mut out: Vec<String> = Vec::new();
        match listing {
            None => {
                assert(out@.map_values(|s: String| s@) =~= Seq::<Seq<char>>::empty());
                out
            },
            Some(entries) => {
                let d = Self::model_dir(models_root, category, model_id);
                let dir = chars_of(d.as_str());
                let part = chars_of("part");
                let lock = chars_of("lock");
                let ghost all = entry_infos(entries@);
                let mut i: usize = 0;
                while i < entries.len()
                    invariant
                        i <= entries@.len(),
                        all == entry_infos(entries@),
                        part@ == "part"@,
                        lock@ == "lock"@,
                        out@.map_values(|s: String| s@) == partial_files(
                            dir@,
                            all.subrange(0, i as int),
                        ),
                    decreases entries@.len() - i,
                {
                    let ghost pre = all.subrange(0, i + 1);
                    assert(pre.drop_last() =~= all.subrange(0, i as int));
                    assert(pre.last() == entries@[i as int]@);
                    let name = chars_of(entries[i].name.as_str());
                    let p = join_exec(dir.as_slice(), name.as_slice());
                    let remove = match extension_exec(p.as_slice()) {
                        Some(e) => chars_eq(e.as_slice(), part.as_slice()) || chars_eq(
                            e.as_slice(),
                            lock.as_slice(),
                        ),
                        None => false,
                    };
                    if remove {
                        let ghost before = out@.map_values(|s: String| s@);
                        out.push(string_of(p.as_slice()));
                        assert(out@.map_values(|s: String| s@) =~= before.push(p@));
                    }
                    i = i + 1;
                }
                assert(all.subrange(0, all.len() as int) =~= all);
                out
            },
        }
    }

    /// Validates the relative path of an optional asset and normalizes it.
    pub fn safe_relative_asset(name: &str) -> (r: Result<String, String>)
        ensures
            r matches Ok(p) ==> safe_asset_path(name@) == Ok::<Seq<char>, Seq<char>>(p@),
            r matches Err(e) ==> safe_asset_path(name@) == Err::<Seq<char>, Seq<char>>(e@),
    {
        let n = chars_of(name);
        if n.len() > 0 && n[0] == '/' {
            let m = concat(chars_of("Asset path must be relative: ").as_slice(), n.as_slice());
            return Err(string_of(m.as_slice()));
        }
        let segs = split_char_exec(n.as_slice(), '/');
        let mut parts: Vec<Vec<char>> = Vec::new();
        let ghost all = views(segs@);
        let mut i: usize = 0;
        while i < segs.len()
            invariant
                i <= segs@.len(),
                all == views(segs@),
                all == split_char(name@, '/'),
                n@ == name@,
                !(name@.len() > 0 && name@[0] == '/'),
                views(parts@) == component_segments(all.subrange(0, i as int)),
                forall|k: int| 0 <= k < i ==> all[k] != parent_marker(),
            decreases segs@.len() - i,
        {
            let ghost pre = all.subrange(0, i + 1);
            assert(pre.drop_last() =~= all.subrange(0, i as int));
            assert(pre.last() == segs@[i as int]@);
            let seg = &segs[i];
            let is_cur = seg.len() == 1 && seg[0] == '.';
            let is_parent = seg.len() == 2 && seg[0] == '.' && seg[1] == '.';
            proof {
                if seg@.len() == 1 && seg@[0] == '.' {
                    assert(seg@ =~= crate::paths::cur_marker());
                }
                if seg@ == crate::paths::cur_marker() {
                    assert(seg@[0] == '.');
                }
                if seg@.len() == 2 && seg@[0] == '.' && seg@[1] == '.' {
                    assert(seg@ =~= parent_marker());
                }
                if seg@ == parent_marker() {
                    assert(seg@[0] == '.' && seg@[1] == '.');
                }
            }
            if is_parent {
                let m = concat(chars_of("Unsafe asset path rejected: ").as_slice(), n.as_slice());
                proof {
                    let segs_v = split_char(name@, '/');
                    assert(segs_v[i as int] == parent_marker());
                    assert(exists|k: int| 0 <= k < segs_v.len() && segs_v[k] == parent_marker());
                    assert(!(name@.len() > 0 && name@[0] == '/'));
                }
                return Err(string_of(m.as_slice()));
            }
            if seg.len() > 0 && !is_cur {
                let ghost before = views(parts@);
                parts.push(to_vec(seg.as_slice()));
                assert(views(parts@) =~= before.push(seg@));
            }
            i = i + 1;
        }
        assert(all.subrange(0, all.len() as int) =~= all);
        if parts.len() == 0 {
            return Err(string_of(chars_of("Asset path is empty").as_slice()));
        }
        let clean = join_components_exec(parts.as_slice());
        Ok(string_of(clean.as_slice()))
    }

    /// Structural metadata of a downloaded model (`structural_dna.json`).
    pub fn generate_bitshit_dna(
        manifest: &ModelManifest,
        weight_path: &str,
        gguf_header: Option<&Vec<(String, String)>>,
    ) -> (r: StructuralDna)
        ensures
            r.model_id@ == manifest.id@,
            r.has_vision == manifest.has_vision,
            r.expert_count == manifest.expert_count,
            r.bit_depth_centi == manifest.bit_depth_centi,
            r.context_window@ == manifest.context_window@,
            r.dynamic_attributes@.map_values(|p: (String, String)| (p.0@, p.1@)) == dna_attributes(
                manifest.bit_depth_centi as nat,
                manifest.parameters@,
                manifest.training_tokens@,
                manifest.category@,
            ),
            ({
                let header = if is_gguf_path(weight_path@) {
                    match gguf_header {
                        Some(v) => Some(pair_views(v@)),
                        None => None,
                    }
                } else {
                    None
                };
                &&& r.max_context_length == dna_context_length(header)
                &&& crate::manifest::opt_view(r.chat_template) == dna_field(
                    header,
                    "tokenizer.chat_template"@,
                )
                &&& crate::manifest::opt_view(r.eos_token) == dna_field(
                    header,
                    "tokenizer.ggml.eos_token_id"@,
                )
            }),
    {
        let mut attributes: Vec<(String, String)> = Vec::new();
        let bit = bit_depth_text(manifest.bit_depth_centi);
        attributes.push((string_of(chars_of("bit_depth").as_slice()), string_of(bit.as_slice())));
        attributes.push(
            (string_of(chars_of("parameters").as_slice()), copy_string(&manifest.parameters)),
        );
        attributes.push(
            (
                string_of(chars_of("training_tokens").as_slice()),
                copy_string(&manifest.training_tokens),
            ),
        );
        attributes.push(
            (string_of(chars_of("category").as_slice()), copy_string(&manifest.category)),
        );
        attributes.push(
            (
                string_of(chars_of("runtime").as_slice()),
                string_of(chars_of("1bitshit-cpu").as_slice()),
            ),
        );
        let w = chars_of(weight_path);
        let is_gguf = match extension_exec(w.as_slice()) {
            Some(e) => eq_ignore_ascii_case(e.as_slice(), chars_of("gguf").as_slice()),
            None => false,
        };
        let header = if is_gguf {
            gguf_header
        } else {
            None
        };
        let (max_context_length, chat_template, eos_token) = match header {
            None => (None, None, None),
            Some(m) => {
                let ctx = match lookup(m, chars_of("llama.context_length").as_slice()) {
                    Some(v) => Some(v),
                    None => lookup(m, chars_of("qwen2.context_length").as_slice()),
                };
                let len = match ctx {
                    Some(v) => parse_u64_exec(v.as_slice()),
                    None => None,
                };
                let t = match lookup(m, chars_of("tokenizer.chat_template").as_slice()) {
                    Some(v) => Some(string_of(v.as_slice())),
                    None => None,
                };
                let e = match lookup(m, chars_of("tokenizer.ggml.eos_token_id").as_slice()) {
                    Some(v) => Some(string_of(v.as_slice())),
                    None => None,
                };
                (len, t, e)
            },
        };
        let r = StructuralDna {
            model_id: copy_string(&manifest.id),
            has_vision: manifest.has_vision,
            expert_count: manifest.expert_count,
            bit_depth_centi: manifest.bit_depth_centi,
            context_window: copy_string(&manifest.context_window),
            dynamic_attributes: attributes,
            max_context_length,
            chat_template,
            eos_token,
        };
        proof {
            assert(r.dynamic_attributes@.map_values(|p: (String, String)| (p.0@, p.1@))
                =~= dna_attributes(
                manifest.bit_depth_centi as nat,
                manifest.parameters@,
                manifest.training_tokens@,
                manifest.category@,
            ));
        }
        r
    }

    /// The former name of `generate_bitshit_dna`.
    pub fn generate_cluaiz_dna(
        manifest: &ModelManifest,
        weight_path: &str,
        gguf_header: Option<&Vec<(String, String)>>,
    ) -> (r: StructuralDna)
        ensures
            r.model_id@ == manifest.id@,
            r.has_vision == manifest.has_vision,
            r.expert_count == manifest.expert_count,
            r.context_window@ == manifest.context_window@,
            r.bit_depth_centi == manifest.bit_depth_centi,
            r.dynamic_attributes@.map_values(|p: (String, String)| (p.0@, p.1@)) == dna_attributes(
                manifest.bit_depth_centi as nat,
                manifest.parameters@,
                manifest.training_tokens@,
                manifest.category@,
            ),
            ({
                let header = if is_gguf_path(weight_path@) {
                    match gguf_header {
                        Some(v) => Some(pair_views(v@)),
                        None => None,
                    }
                } else {
                    None
                };
                &&& r.max_context_length == dna_context_length(header)
                &&& crate::manifest::opt_view(r.chat_template) == dna_field(
                    header,
                    "tokenizer.chat_template"@,
                )
                &&& crate::manifest::opt_view(r.eos_token) == dna_field(
                    header,
                    "tokenizer.ggml.eos_token_id"@,
                )
            }),
    {
        Self::generate_bitshit_dna(manifest, weight_path, gguf_header)
    }
}

/// The normalized relative asset path, or the reason it is rejected.
pub open spec fn safe_asset_path(name: Seq<char>) -> Result<Seq<char>, Seq<char>> {
    let segs = split_char(name, '/');
    let parts = component_segments(segs);
    if name.len() > 0 && name[0] == '/' {
        Err("Asset path must be relative: "@ + name)
    } else if exists|k: int| 0 <= k < segs.len() && segs[k] == parent_marker() {
        Err("Unsafe asset path rejected: "@ + name)
    } else if parts.len() == 0 {
        Err("Asset path is empty"@)
    } else {
        Ok(join_components(parts))
    }
}

/// Structural metadata of a model on disk.
pub struct StructuralDna {
    pub model_id: String,
    pub has_vision: bool,
    pub expert_count: Option<u32>,
    pub bit_depth_centi: u32,
    pub context_window: String,
    pub dynamic_attributes: Vec<(String, String)>,
    pub max_context_length: Option<u64>,
    pub chat_template: Option<String>,
    pub eos_token: Option<String>,
}

/// A path whose extension is `gguf` in any letter case.
pub open spec fn is_gguf_path(p: Seq<char>) -> bool {
    match extension(p) {
        Some(e) => eq_ignore_case(e, "gguf"@),
        None => false,
    }
}

/// A bit depth in hundredths of a bit as `f64` displays it (`1.58`, `4`, `2.5`).
pub open spec fn bit_depth_display(centi: nat) -> Seq<char> {
    let whole = centi / 100;
    let frac = centi % 100;
    if frac == 0 {
        decimal(whole)
    } else if frac % 10 == 0 {
        decimal(whole) + seq!['.', digit_char(frac / 10)]
    } else {
        decimal(whole) + seq!['.', digit_char(frac / 10), digit_char(frac % 10)]
    }
}

fn bit_depth_text(centi: u32) -> (r: Vec<char>)
    ensures
        r@ == bit_depth_display(centi as nat),
{
    let whole = (centi / 100) as u64;
    let frac = (centi % 100) as u64;
    let mut r = decimal_exec(whole);
    if frac == 0 {
        return r;
    }
    r.push('.');
    r.push(digit_char_exec(frac / 10));
    if frac % 10 != 0 {
        r.push(digit_char_exec(frac % 10));
    }
    r
}

/// The attributes recorded in the structural metadata, in insertion order.
pub open spec fn dna_attributes(
    bit_depth_centi: nat,
    parameters: Seq<char>,
    training_tokens: Seq<char>,
    category: Seq<char>,
) -> Seq<(Seq<char>, Seq<char>)> {
    seq![
        ("bit_depth"@, bit_depth_display(bit_depth_centi)),
        ("parameters"@, parameters),
        ("training_tokens"@, training_tokens),
        ("category"@, category),
        ("runtime"@, "1bitshit-cpu"@),
    ]
}

/// A header field, if the header was read.
pub open spec fn dna_field(header: Option<Seq<(Seq<char>, Seq<char>)>>, key: Seq<char>) -> Option<
    Seq<char>,
> {
    match header {
        Some(m) => meta_get(m, key),
        None => None,
    }
}

/// The context length of the header (Llama key first, then Qwen2), if it parses.
pub open spec fn dna_context_length(header: Option<Seq<(Seq<char>, Seq<char>)>>) -> Option<u64> {
    match header {
        Some(m) => {
            let v = match meta_get(m, "llama.context_length"@) {
                Some(x) => Some(x),
                None => meta_get(m, "qwen2.context_length"@),
            };
            match v {
                Some(text) => match parse_unsigned(text, u64::MAX as nat) {
                    Some(n) => Some(n as u64),
                    None => None,
                },
                None => None,
            }
        },
        None => None,
    }
}

fn lookup(m: &Vec<(String, String)>, key: &[char]) -> (r: Option<Vec<char>>)
    ensures
        match r {
            Some(v) => meta_get(pair_views(m@), key@) == Some(v@),
            None => meta_get(pair_views(m@), key@) is None,
        },
{
    let ghost all = pair_views(m@);
    let mut i: usize = 0;
    assert(all.subrange(0, all.len() as int) =~= all);
    while i < m.len()
        invariant
            i <= m@.len(),
            all == pair_views(m@),
            meta_get(all, key@) == meta_get(all.subrange(i as int, all.len() as int), key@),
        decreases m@.len() - i,
    {
        let ghost rest = all.subrange(i as int, all.len() as int);
        assert(rest[0] == (m@[i as int].0@, m@[i as int].1@));
        assert(rest.drop_first() =~= all.subrange(i + 1, all.len() as int));
        let k = chars_of(m[i].0.as_str());
        if chars_eq(k.as_slice(), key) {
            return Some(chars_of(m[i].1.as_str()));
        }
        i = i + 1;
    }
    None
}

/// Repositories tried for a missing optional asset: the repository itself and,
/// when it differs, its name without the `-GGUF`/`-gguf` suffix marker.
pub open spec fn asset_repositories(repository: Seq<char>) -> Seq<Seq<char>> {
    let stripped = replace_all(replace_all(repository, "-GGUF"@, Seq::empty()), "-gguf"@, Seq::empty());
    if stripped == repository {
        seq![repository]
    } else {
        seq![repository, stripped]
    }
}

/// The repositories tried, with the download URL of the asset in each.
pub fn asset_sources(repository_id: &str, asset_name: &str) -> (r: Vec<(String, String)>)
    ensures
        r@.map_values(|p: (String, String)| (p.0@, p.1@)) == asset_repositories(
            repository_id@,
        ).map_values(|repo: Seq<char>| (repo, resolve_url(repo, asset_name@))),
{
    let repo = chars_of(repository_id);
    let name = chars_of(asset_name);
    let empty: Vec<char> = Vec::new();
    let a = replace_exec(repo.as_slice(), chars_of("-GGUF").as_slice(), empty.as_slice());
    let b = replace_exec(a.as_slice(), chars_of("-gguf").as_slice(), empty.as_slice());
    let mut r: Vec<(String, String)> = Vec::new();
    let u = crate::hf_hub::resolve_url_exec(repo.as_slice(), name.as_slice());
    r.push((string_of(repo.as_slice()), string_of(u.as_slice())));
    if !chars_eq(b.as_slice(), repo.as_slice()) {
        let u2 = crate::hf_hub::resolve_url_exec(b.as_slice(), name.as_slice());
        r.push((string_of(b.as_slice()), string_of(u2.as_slice())));
    }
    proof {
        assert(empty@ =~= Seq::<char>::empty());
        let want = asset_repositories(repository_id@).map_values(
            |repo: Seq<char>| (repo, resolve_url(repo, asset_name@)),
        );
        assert(r@.map_values(|p: (String, String)| (p.0@, p.1@)) =~= want);
    }
    r
}

// ---------------------------------------------------------------------------
// Laws of the model store
// ---------------------------------------------------------------------------

/// No character is a path separator, a colon or a space.
pub open spec fn free_of_separators(s: Seq<char>) -> bool {
    forall|i: int|
        0 <= i < s.len() ==> #[trigger] s[i] != ':' && s[i] != '/' && s[i] != '\\' && s[i] != ' '
}

proof fn lemma_strip_prefixes_char(s: Seq<char>, c: char) -> (k: int)
    ensures
        0 <= k <= s.len(),
        strip_prefixes(s, seq![c]) == s.subrange(k, s.len() as int),
        strip_prefixes(s, seq![c]).len() > 0 ==> strip_prefixes(s, seq![c])[0] != c,
    decreases s.len(),
{
    if crate::text::has_prefix(s, seq![c]) {
        let t = s.subrange(1, s.len() as int);
        let k1 = lemma_strip_prefixes_char(t, c);
        assert(t.subrange(k1, t.len() as int) =~= s.subrange(k1 + 1, s.len() as int));
        k1 + 1
    } else {
        if s.len() > 0 && s[0] == c {
            assert(s.subrange(0, 1) =~= seq![c]);
        }
        assert(s.subrange(0, s.len() as int) =~= s);
        0
    }
}

proof fn lemma_strip_suffixes_char(s: Seq<char>, c: char) -> (k: int)
    ensures
        0 <= k <= s.len(),
        crate::text::strip_suffixes(s, seq![c]) == s.subrange(0, k),
        crate::text::strip_suffixes(s, seq![c]).len() > 0 ==> crate::text::strip_suffixes(
            s,
            seq![c],
        ).last() != c,
    decreases s.len(),
{
    if crate::text::has_suffix(s, seq![c]) {
        let t = s.subrange(0, s.len() - 1);
        let k1 = lemma_strip_suffixes_char(t, c);
        assert(t.subrange(0, k1) =~= s.subrange(0, k1));
        k1
    } else {
        if s.len() > 0 && s.last() == c {
            assert(s.subrange(s.len() - 1, s.len() as int) =~= seq![c]);
        }
        assert(s.subrange(0, s.len() as int) =~= s);
        s.len() as int
    }
}

proof fn lemma_sanitized_shape(id: Seq<char>)
    ensures
        free_of_separators(sanitized(id)),
        sanitized(id).len() > 0 ==> sanitized(id)[0] != '-' && sanitized(id).last() != '-',
{
    let m = id.map_values(|c: char| sanitize_char(c));
    let k1 = lemma_strip_prefixes_char(m, '-');
    let a = strip_prefixes(m, seq!['-']);
    let k2 = lemma_strip_suffixes_char(a, '-');
    let r = sanitized(id);
    assert(r == a.subrange(0, k2));
    assert forall|i: int| 0 <= i < r.len() implies #[trigger] r[i] != ':' && r[i] != '/' && r[i] != '\\' && r[i] != ' ' by {
        assert(r[i] == a[i]);
        assert(a[i] == m[k1 + i]);
    }
    if r.len() > 0 {
        assert(r[0] == a[0]);
    }
}

/// The directory name of a model holds no path separator, colon or space and
/// neither starts nor ends with `-`: it is one safe path component.
pub proof fn law_model_dir_name_is_clean(model_id: Seq<char>)
    ensures
        free_of_separators(model_dir_name(model_id)),
        model_dir_name(model_id).len() > 0 ==> model_dir_name(model_id)[0] != '-'
            && model_dir_name(model_id).last() != '-',
{
    lemma_sanitized_shape(after_last_char(model_id, '/'));
}

/// Sanitizing twice changes nothing.
pub proof fn law_sanitize_idempotent(id: Seq<char>)
    ensures
        sanitized(sanitized(id)) == sanitized(id),
{
    let y = sanitized(id);
    lemma_sanitized_shape(id);
    let m = y.map_values(|c: char| sanitize_char(c));
    assert(m =~= y) by {
        assert forall|i: int| 0 <= i < y.len() implies m[i] == y[i] by {
            assert(y[i] != ':' && y[i] != '/' && y[i] != '\\' && y[i] != ' ');
        }
    }
    if y.len() > 0 {
        assert(!crate::text::has_prefix(y, seq!['-'])) by {
            if crate::text::has_prefix(y, seq!['-']) {
                assert(y.subrange(0, 1)[0] == y[0]);
            }
        }
        assert(!crate::text::has_suffix(y, seq!['-'])) by {
            if crate::text::has_suffix(y, seq!['-']) {
                assert(y.subrange(y.len() - 1, y.len() as int)[0] == y.last());
            }
        }
    }
}

/// A model's directory name names the same directory when used as an id.
pub proof fn law_model_dir_name_idempotent(model_id: Seq<char>)
    ensures
        model_dir_name(model_dir_name(model_id)) == model_dir_name(model_id),
{
    let n = model_dir_name(model_id);
    law_model_dir_name_is_clean(model_id);
    crate::text::lemma_rfind_before_props(n, seq!['/'], n.len() + 1int);
    if rfind(n, seq!['/']) is Some {
        let k = rfind(n, seq!['/'])->0;
        assert(n.subrange(k, k + 1)[0] == n[k]);
    }
    assert(after_last_char(n, '/') == n);
    law_sanitize_idempotent(after_last_char(model_id, '/'));
}

/// Every path the store derives for a model (the cached weight file and the
/// leftovers of an interrupted download) lies directly in its directory.
pub proof fn law_store_paths_stay_in_model_dir(
    root: Seq<char>,
    category: Seq<char>,
    model_id: Seq<char>,
    filename: Seq<char>,
    exact_is_file: bool,
    listing: Option<Seq<(Seq<char>, bool)>>,
)
    ensures
        cached_path(model_dir(root, category, model_id), filename, exact_is_file, listing) matches Some(p)
            ==> exists|name: Seq<char>| p == join(model_dir(root, category, model_id), name),
        forall|k: int|
            0 <= k < partial_files(model_dir(root, category, model_id), entries_of(listing)).len()
                ==> exists|name: Seq<char>|
                #[trigger] partial_files(model_dir(root, category, model_id), entries_of(listing))[k]
                    == join(model_dir(root, category, model_id), name),
{
    let dir = model_dir(root, category, model_id);
    if !exact_is_file {
        if let Some(entries) = listing {
            lemma_first_weight_in_dir(dir, entries);
        }
    } else {
        assert(join(dir, crate::paths::base_name(filename)) == join(dir, crate::paths::base_name(filename)));
    }
    lemma_partial_files_in_dir(dir, entries_of(listing));
}

/// The listing, or no entries when the directory could not be read.
pub open spec fn entries_of(listing: Option<Seq<(Seq<char>, bool)>>) -> Seq<(Seq<char>, bool)> {
    match listing {
        Some(e) => e,
        None => Seq::empty(),
    }
}

proof fn lemma_first_weight_in_dir(dir: Seq<char>, entries: Seq<(Seq<char>, bool)>)
    ensures
        first_weight(dir, entries) matches Some(p) ==> exists|name: Seq<char>| p == join(dir, name),
    decreases entries.len(),
{
    if entries.len() > 0 {
        if is_weight_entry(dir, entries[0]) {
            assert(first_weight(dir, entries) == Some(join(dir, entries[0].0)));
        } else {
            lemma_first_weight_in_dir(dir, entries.drop_first());
        }
    }
}

proof fn lemma_partial_files_in_dir(dir: Seq<char>, entries: Seq<(Seq<char>, bool)>)
    ensures
        forall|k: int|
            0 <= k < partial_files(dir, entries).len() ==> exists|name: Seq<char>|
                #[trigger] partial_files(dir, entries)[k] == join(dir, name),
    decreases entries.len(),
{
    if entries.len() > 0 {
        lemma_partial_files_in_dir(dir, entries.drop_last());
        let rest = partial_files(dir, entries.drop_last());
        let p = join(dir, entries.last().0);
        assert forall|k: int| 0 <= k < partial_files(dir, entries).len() implies exists|name: Seq<char>|
            #[trigger] partial_files(dir, entries)[k] == join(dir, name) by {
            if k < rest.len() {
                assert(partial_files(dir, entries)[k] == rest[k]);
            } else {
                assert(partial_files(dir, entries)[k] == p);
            }
        }
    }
}

/// A normal path component: not empty, not `.` or `..`, without `/`.
pub open spec fn normal_component(c: Seq<char>) -> bool {
    c.len() > 0 && c != crate::paths::cur_marker() && c != parent_marker() && forall|i: int|
        0 <= i < c.len() ==> #[trigger] c[i] != '/'
}

proof fn lemma_component_segments_from(segs: Seq<Seq<char>>)
    ensures
        forall|k: int|
            0 <= k < component_segments(segs).len() ==> segs.contains(
                #[trigger] component_segments(segs)[k],
            ) && crate::paths::is_component_segment(component_segments(segs)[k]),
    decreases segs.len(),
{
    if segs.len() > 0 {
        lemma_component_segments_from(segs.drop_last());
        let rest = component_segments(segs.drop_last());
        assert forall|k: int| 0 <= k < component_segments(segs).len() implies segs.contains(
            #[trigger] component_segments(segs)[k],
        ) && crate::paths::is_component_segment(component_segments(segs)[k]) by {
            if k < rest.len() {
                assert(component_segments(segs)[k] == rest[k]);
                assert(segs.drop_last().contains(rest[k]));
                let j = choose|j: int| 0 <= j < segs.drop_last().len() && segs.drop_last()[j] == rest[k];
                assert(segs[j] == segs.drop_last()[j]);
            } else {
                assert(component_segments(segs)[k] == segs.last());
                assert(segs[segs.len() - 1] == segs.last());
            }
        }
    }
}

proof fn lemma_join_components_first(c: Seq<Seq<char>>)
    requires
        c.len() > 0,
        c[0].len() > 0,
    ensures
        join_components(c).len() > 0,
        join_components(c)[0] == c[0][0],
    decreases c.len(),
{
    if c.len() > 1 {
        lemma_join_components_first(c.drop_last());
        assert(c.drop_last()[0] == c[0]);
    }
}

/// An accepted asset path is relative and made only of normal components, so
/// it can never leave the model directory it is joined to.
pub proof fn law_safe_asset_path_stays_inside(name: Seq<char>)
    ensures
        safe_asset_path(name) matches Ok(p) ==> p.len() > 0 && p[0] != '/' && exists|parts: Seq<
            Seq<char>,
        >|
            parts.len() > 0 && p == join_components(parts) && forall|k: int|
                0 <= k < parts.len() ==> normal_component(#[trigger] parts[k]),
{
    let segs = split_char(name, '/');
    let parts = component_segments(segs);
    if safe_asset_path(name) is Ok {
        crate::text::lemma_split_pieces_free(name, seq!['/']);
        lemma_component_segments_from(segs);
        assert forall|k: int| 0 <= k < parts.len() implies normal_component(#[trigger] parts[k]) by {
            assert(segs.contains(parts[k]));
            let j = choose|j: int| 0 <= j < segs.len() && segs[j] == parts[k];
            assert(segs[j] != parent_marker());
            assert forall|i: int| 0 <= i < parts[k].len() implies #[trigger] parts[k][i] != '/' by {
                assert(!seq!['/'].contains(segs[j][i]));
                assert(seq!['/'][0] == '/');
            }
        }
        lemma_join_components_first(parts);
        assert(!seq!['/'].contains(parts[0][0])) by {
            assert(segs.contains(parts[0]));
            let j = choose|j: int| 0 <= j < segs.len() && segs[j] == parts[0];
            assert(!seq!['/'].contains(segs[j][0]));
        }
        assert(seq!['/'][0] == '/');
    }
}

} // verus!
