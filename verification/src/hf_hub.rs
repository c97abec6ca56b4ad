//! Hugging Face repository logic: model variants, quantization labels,
//! companion files (split GGUF shards, ONNX external data, tokenizer files)
//! and manifest construction.
use vstd::prelude::*;
use crate::manifest::{
    asset_views, copy_string, copy_tree_item, entry_views, tree_views, variant_views, HfVariant,
    ModelAsset, ModelManifest, TreeEntry, TreeItem,
};
use crate::paths::{
    base_name, base_name_exec, components, extension, extension_exec, file_name, file_name_exec,
    is_prefix_components, is_prefix_components_exec, parent_components, parent_components_exec,
    relative_to, relative_to_exec, component_lists_eq, components_exec,
};
use crate::text::{
    after_last_char, after_last_char_exec, all_digits, append_chars, before_first, concat3,
    before_first_exec, chars_eq, chars_of, concat, contains_exec, contains_seq, decimal,
    decimal_exec, digit_value, eq_ignore_ascii_case, eq_ignore_case, has_prefix, has_suffix,
    is_digit, lower, parse_unsigned, parse_u64_exec, replace_all, replace_exec, rfind, rfind_exec,
    lemma_rfind_before_props, occurs_at, slice_to_vec, split_any, split_any_exec, starts_with,
    ends_with, string_of, strip_suffixes, strip_suffixes_exec, to_lower, to_upper, to_vec, trim,
    trim_exec, upper, views,
};

verus! {

// ---------------------------------------------------------------------------
// URLs
// ---------------------------------------------------------------------------

/// `https://huggingface.co/{repository}/resolve/main/{path}`.
pub open spec fn resolve_url(repository: Seq<char>, path: Seq<char>) -> Seq<char> {
    "https://huggingface.co/"@ + repository + "/resolve/main/"@ + path
}

pub fn resolve_url_exec(repository: &[char], path: &[char]) -> (r: Vec<char>)
    ensures
        r@ == resolve_url(repository@, path@),
{
    let mut r = chars_of("https://huggingface.co/");
    append_chars(&mut r, repository);
    let mid = chars_of("/resolve/main/");
    append_chars(&mut r, mid.as_slice());
    append_chars(&mut r, path);
    r
}

// ---------------------------------------------------------------------------
// Split GGUF files
// ---------------------------------------------------------------------------

/// A GGUF file that is one part of a split model (`name-00001-of-00003.gguf`).
pub open spec fn is_split_gguf(filename: Seq<char>) -> bool {
    has_suffix(lower(filename), ".gguf"@) && contains_seq(lower(filename), "-of-"@)
}

pub fn is_split_gguf_exec(filename: &[char]) -> (r: bool)
    ensures
        r == is_split_gguf(filename@),
{
    let l = to_lower(filename);
    let ext = chars_of(".gguf");
    let of = chars_of("-of-");
    ends_with(l.as_slice(), ext.as_slice()) && contains_exec(l.as_slice(), of.as_slice())
}

/// A split GGUF part other than the first one: the number right before the
/// last `-of-` parses and is not 1.
pub open spec fn is_non_primary_shard(filename: Seq<char>) -> bool {
    let l = lower(filename);
    if !(has_suffix(l, ".gguf"@) && contains_seq(l, "-of-"@)) {
        false
    } else {
        match rfind(l, "-of-"@) {
            None => false,
            Some(o) => {
                let before = l.subrange(0, o);
                match rfind(before, seq!['-']) {
                    None => false,
                    Some(sep) => {
                        let shard = before.subrange(sep + 1, o);
                        all_digits(shard) && match parse_unsigned(shard, u64::MAX as nat) {
                            Some(v) => v != 1,
                            None => false,
                        }
                    },
                }
            },
        }
    }
}

/// The Hugging Face model hub as seen by the model store: repository
/// listings turned into variants, manifests and companion assets.
pub struct HuggingFaceHub;

impl HuggingFaceHub {
    /// Whether a file is one part of a split GGUF model.
    pub fn is_split_gguf(filename: &str) -> (r: bool)
        ensures
            r == is_split_gguf(filename@),
    {
        is_split_gguf_exec(chars_of(filename).as_slice())
    }

    /// Quantization label and bit depth (hundredths of a bit) of a GGUF file.
    pub fn derive_gguf_quantization(filename: &str) -> (r: (String, u32))
        ensures
            (r.0@, r.1 as nat) == gguf_quantization(filename@),
    {
        let (q, b) = derive_gguf_quantization_exec(chars_of(filename).as_slice());
        (string_of(q.as_slice()), b)
    }

    /// Quantization label and bit depth (hundredths of a bit) that the
    /// repository listing gives a GGUF stem; the manifest of a GGUF file
    /// carries the label of [`Self::derive_gguf_quantization`] instead.
    pub fn gguf_quantization(stem: &str) -> (r: (String, u32))
        ensures
            (r.0@, r.1 as nat) == listing_gguf_quantization(stem@),
    {
        let (q, b) = listing_gguf_quantization_exec(chars_of(stem).as_slice());
        (string_of(q.as_slice()), b)
    }

    /// Precision label and bit depth (hundredths of a bit) of an ONNX stem.
    pub fn onnx_precision(stem: &str) -> (r: (String, u32))
        ensures
            (r.0@, r.1 as nat) == onnx_precision(stem@),
    {
        let (q, b) = onnx_precision_exec(chars_of(stem).as_slice());
        (string_of(q.as_slice()), b)
    }

    /// Category, vision and audio support, and input modality of a model.
    pub fn categorize(extension: &str, pipeline_tag: &str, tags: &Vec<String>) -> (r: (
        String,
        bool,
        bool,
        String,
    ))
        ensures
            (r.0@, r.1, r.2, r.3@) == categorize(
                extension@,
                pipeline_tag@,
                crate::text::string_views(tags@),
            ),
    {
        let mut t: Vec<Vec<char>> = Vec::new();
        let mut i: usize = 0;
        while i < tags.len()
            invariant
                i <= tags@.len(),
                t@.len() == i,
                forall|k: int| 0 <= k < i ==> #[trigger] t@[k]@ == tags@[k]@,
            decreases tags@.len() - i,
        {
            t.push(chars_of(tags[i].as_str()));
            i = i + 1;
        }
        assert(views(t@) =~= crate::text::string_views(tags@));
        let (c, v, a, m) = categorize_exec(
            chars_of(extension).as_slice(),
            chars_of(pipeline_tag).as_slice(),
            &t,
        );
        (string_of(c.as_slice()), v, a, string_of(m.as_slice()))
    }

    /// The ONNX external-data files of `filename` in the repository tree.
    pub fn related_onnx_assets(tree: &Vec<TreeItem>, filename: &str) -> (r: Vec<TreeItem>)
        ensures
            tree_views(r@) == related_items(tree_views(tree@), filename@, true),
    {
        related_assets(tree, filename, true)
    }

    /// The other parts of the split GGUF model `filename` in the tree.
    pub fn related_gguf_shards(tree: &Vec<TreeItem>, filename: &str) -> (r: Vec<TreeItem>)
        ensures
            tree_views(r@) == related_items(tree_views(tree@), filename@, false),
    {
        related_assets(tree, filename, false)
    }
}

impl HuggingFaceHub {
    pub fn is_non_primary_gguf_shard(filename: &str) -> (r: bool)
        ensures
            r == is_non_primary_shard(filename@),
    {
        let f = chars_of(filename);
        let l = to_lower(f.as_slice());
        let ext = chars_of(".gguf");
        let of = chars_of("-of-");
        if !(ends_with(l.as_slice(), ext.as_slice()) && contains_exec(l.as_slice(), of.as_slice())) {
            return false;
        }
        let n = l.len();
        proof {
            lemma_rfind_before_props(l@, "-of-"@, l@.len() + 1int);
        }
        let o = match rfind_exec(l.as_slice(), of.as_slice()) {
            Some(o) => o,
            None => {
                return false;
            },
        };
        assert(o <= n);
        let before = slice_to_vec(l.as_slice(), 0, o);
        let dash = vec!['-'];
        assert(dash@ =~= seq!['-']);
        proof {
            lemma_rfind_before_props(before@, seq!['-'], before@.len() + 1int);
        }
        let sep = match rfind_exec(before.as_slice(), dash.as_slice()) {
            Some(s) => s,
            None => {
                return false;
            },
        };
        assert(occurs_at(before@, seq!['-'], sep as int));
        let shard = slice_to_vec(before.as_slice(), sep + 1, o);
        let mut all = true;
        let mut i: usize = 0;
        while i < shard.len()
            invariant
                i <= shard@.len(),
                all == (forall|k: int| 0 <= k < i ==> is_digit(#[trigger] shard@[k])),
            decreases shard@.len() - i,
        {
            if !('0' <= shard[i] && shard[i] <= '9') {
                all = false;
            }
            i = i + 1;
        }
        if !all {
            return false;
        }
        match parse_u64_exec(shard.as_slice()) {
            Some(v) => v != 1,
            None => false,
        }
    }
}

// ---------------------------------------------------------------------------
// Quantization and precision labels
// ---------------------------------------------------------------------------

/// Quantization label and bit depth (hundredths of a bit) read from the first
/// matching token of a GGUF file name.
pub open spec fn quant_from_tokens(tokens: Seq<Seq<char>>) -> Option<(Seq<char>, nat)>
    decreases tokens.len(),
{
    if tokens.len() == 0 {
        None
    } else {
        let t = tokens[0];
        if has_prefix(t, "tq"@) {
            Some((t, 158))
        } else if t == seq!['f', '1', '6'] || t == "fp16"@ {
            Some((seq!['f', '1', '6'], 1600))
        } else if t == seq!['f', '3', '2'] || t == "fp32"@ {
            Some((seq!['f', '3', '2'], 3200))
        } else if t.len() >= 2 && t[0] == 'q' && is_digit(t[1]) {
            Some((t, digit_value(t[1]) * 100))
        } else {
            quant_from_tokens(tokens.drop_first())
        }
    }
}

/// The GGUF quantization of a file name and its bit depth in hundredths of a bit.
pub open spec fn gguf_quantization(filename: Seq<char>) -> (Seq<char>, nat) {
    let l = lower(strip_suffixes(base_name(filename), ".gguf"@));
    if contains_seq(l, "i2_s"@) {
        ("i2_s"@, 158)
    } else if contains_seq(l, "ternary"@) {
        ("ternary"@, 158)
    } else {
        match quant_from_tokens(split_any(l, seq!['-', '.'])) {
            Some(q) => q,
            None => ("gguf"@, 400),
        }
    }
}

fn quant_from_tokens_exec(tokens: &Vec<Vec<char>>) -> (r: Option<(Vec<char>, u32)>)
    ensures
        match r {
            Some((t, b)) => quant_from_tokens(views(tokens@)) == Some((t@, b as nat)),
            None => quant_from_tokens(views(tokens@)) is None,
        },
{
    let tq = chars_of("tq");

    let half = vec!['f', '1', '6'];
    assert(half@ =~= seq!['f', '1', '6']);
    let fp16 = chars_of("fp16");
    let single = vec!['f', '3', '2'];
    assert(single@ =~= seq!['f', '3', '2']);
    let fp32 = chars_of("fp32");
    let mut i: usize = 0;
    assert(views(tokens@).subrange(0, tokens@.len() as int) =~= views(tokens@));
    while i < tokens.len()
        invariant
            i <= tokens@.len(),
            tq@ == "tq"@,
            half@ == seq!['f', '1', '6'],
            fp16@ == "fp16"@,
            single@ == seq!['f', '3', '2'],
            fp32@ == "fp32"@,
            quant_from_tokens(views(tokens@)) == quant_from_tokens(
                views(tokens@).subrange(i as int, tokens@.len() as int),
            ),
        decreases tokens@.len() - i,
    {
        let ghost rest = views(tokens@).subrange(i as int, tokens@.len() as int);
        assert(rest[0] == tokens@[i as int]@);
        assert(rest.drop_first() =~= views(tokens@).subrange(i + 1, tokens@.len() as int));
        let t = &tokens[i];
        if starts_with(t.as_slice(), tq.as_slice()) {
            return Some((to_vec(t.as_slice()), 158));
        }
        if chars_eq(t.as_slice(), half.as_slice()) || chars_eq(t.as_slice(), fp16.as_slice()) {
            return Some((half, 1600));
        }
        if chars_eq(t.as_slice(), single.as_slice()) || chars_eq(t.as_slice(), fp32.as_slice()) {
            return Some((single, 3200));
        }
        if t.len() >= 2 && t[0] == 'q' && '0' <= t[1] && t[1] <= '9' {
            let d: u32 = (t[1] as u32) - ('0' as u32);
            return Some((to_vec(t.as_slice()), d * 100));
        }
        i = i + 1;
    }
    None
}

/// Quantization label and bit depth of a GGUF file name.
pub fn derive_gguf_quantization_exec(filename: &[char]) -> (r: (Vec<char>, u32))
    ensures
        (r.0@, r.1 as nat) == gguf_quantization(filename@),
{
    let base = base_name_exec(filename);
    let ext = chars_of(".gguf");
    let stripped = strip_suffixes_exec(base.as_slice(), ext.as_slice());
    let l = to_lower(stripped.as_slice());
    let i2 = chars_of("i2_s");
    if contains_exec(l.as_slice(), i2.as_slice()) {
        return (i2, 158);
    }
    let ternary = chars_of("ternary");
    if contains_exec(l.as_slice(), ternary.as_slice()) {
        return (ternary, 158);
    }
    let seps = vec!['-', '.'];
    assert(seps@ =~= seq!['-', '.']);
    let tokens = split_any_exec(l.as_slice(), seps.as_slice());
    match quant_from_tokens_exec(&tokens) {
        Some(q) => q,
        None => (chars_of("gguf"), 400),
    }
}

/// A part of a stem that names a quantization in the repository listing:
/// it starts with `q`, mentions `i2_s`, `tq` or `ternary`, or is a plain
/// 16- or 32-bit float marker.
pub open spec fn listing_quant_part(part: Seq<char>) -> bool {
    let p = lower(part);
    (p.len() > 0 && p[0] == 'q') || contains_seq(p, "i2_s"@) || contains_seq(p, "tq"@)
        || contains_seq(p, "ternary"@) || p == seq!['f', '1', '6'] || p == seq!['f', '3', '2']
}

/// The last quantization part, searching from the end.
pub open spec fn last_quant_part(parts: Seq<Seq<char>>) -> Option<Seq<char>>
    decreases parts.len(),
{
    if parts.len() == 0 {
        None
    } else if listing_quant_part(parts.last()) {
        Some(parts.last())
    } else {
        last_quant_part(parts.drop_last())
    }
}

/// Quantization label and bit depth (hundredths of a bit) that the repository
/// listing assigns to a GGUF stem (parts split at `-`, `_` and `.`).
pub open spec fn listing_gguf_quantization(stem: Seq<char>) -> (Seq<char>, nat) {
    let q = lower(
        match last_quant_part(split_any(stem, seq!['-', '_', '.'])) {
            Some(p) => p,
            None => "gguf"@,
        },
    );
    let depth: nat = if contains_seq(q, "i2_s"@) || contains_seq(q, "ternary"@) || contains_seq(
        q,
        "tq"@,
    ) {
        158
    } else if contains_seq(q, "q2"@) {
        200
    } else if contains_seq(q, "q3"@) {
        300
    } else if contains_seq(q, "q8"@) {
        800
    } else if q == seq!['f', '1', '6'] {
        1600
    } else if q == seq!['f', '3', '2'] {
        3200
    } else {
        400
    };
    (q, depth)
}

fn listing_quant_part_exec(part: &[char]) -> (r: bool)
    ensures
        r == listing_quant_part(part@),
{
    let p = to_lower(part);
    let half = vec!['f', '1', '6'];
    let single = vec!['f', '3', '2'];
    assert(half@ =~= seq!['f', '1', '6']);
    assert(single@ =~= seq!['f', '3', '2']);
    (p.len() > 0 && p[0] == 'q') || contains_exec(p.as_slice(), chars_of("i2_s").as_slice())
        || contains_exec(p.as_slice(), chars_of("tq").as_slice()) || contains_exec(
        p.as_slice(),
        chars_of("ternary").as_slice(),
    ) || chars_eq(p.as_slice(), half.as_slice()) || chars_eq(p.as_slice(), single.as_slice())
}

fn last_quant_index(parts: &Vec<Vec<char>>) -> (r: Option<usize>)
    ensures
        match r {
            Some(k) => k < parts@.len() && last_quant_part(views(parts@)) == Some(parts@[k as int]@),
            None => last_quant_part(views(parts@)) is None,
        },
{
    let ghost all = views(parts@);
    let mut i: usize = parts.len();
    assert(all.subrange(0, all.len() as int) =~= all);
    while i > 0
        invariant
            i <= parts@.len(),
            all == views(parts@),
            last_quant_part(all) == last_quant_part(all.subrange(0, i as int)),
        decreases i,
    {
        let ghost pre = all.subrange(0, i as int);
        assert(pre.drop_last() =~= all.subrange(0, i - 1));
        assert(pre.last() == parts@[i - 1]@);
        if listing_quant_part_exec(parts[i - 1].as_slice()) {
            return Some(i - 1);
        }
        i = i - 1;
    }
    None
}

fn listing_gguf_quantization_exec(stem: &[char]) -> (r: (Vec<char>, u32))
    ensures
        (r.0@, r.1 as nat) == listing_gguf_quantization(stem@),
{
    let seps = vec!['-', '_', '.'];
    assert(seps@ =~= seq!['-', '_', '.']);
    let parts = split_any_exec(stem, seps.as_slice());
    let found = last_quant_index(&parts);
    let q = match found {
        Some(k) => to_lower(parts[k].as_slice()),
        None => to_lower(chars_of("gguf").as_slice()),
    };
    let half = vec!['f', '1', '6'];
    let single = vec!['f', '3', '2'];
    assert(half@ =~= seq!['f', '1', '6']);
    assert(single@ =~= seq!['f', '3', '2']);
    let qs = q.as_slice();
    let depth: u32 = if contains_exec(qs, chars_of("i2_s").as_slice()) || contains_exec(
        qs,
        chars_of("ternary").as_slice(),
    ) || contains_exec(qs, chars_of("tq").as_slice()) {
        158
    } else if contains_exec(qs, chars_of("q2").as_slice()) {
        200
    } else if contains_exec(qs, chars_of("q3").as_slice()) {
        300
    } else if contains_exec(qs, chars_of("q8").as_slice()) {
        800
    } else if chars_eq(qs, half.as_slice()) {
        1600
    } else if chars_eq(qs, single.as_slice()) {
        3200
    } else {
        400
    };
    (q, depth)
}

/// ONNX precision label and bit depth (hundredths of a bit) of a file stem.
pub open spec fn onnx_precision(stem: Seq<char>) -> (Seq<char>, nat) {
    if contains_seq(stem, "int8"@) || contains_seq(stem, "q8"@) {
        ("int8"@, 800)
    } else if contains_seq(stem, "int4"@) || contains_seq(stem, "q4"@) {
        ("int4"@, 400)
    } else if contains_seq(stem, "fp16"@) || contains_seq(stem, seq!['f', '1', '6']) {
        ("fp16"@, 1600)
    } else {
        ("fp32"@, 3200)
    }
}

pub fn onnx_precision_exec(stem: &[char]) -> (r: (Vec<char>, u32))
    ensures
        (r.0@, r.1 as nat) == onnx_precision(stem@),
{
    let int8 = chars_of("int8");
    let q8 = chars_of("q8");
    let int4 = chars_of("int4");
    let q4 = chars_of("q4");
    let fp16 = chars_of("fp16");
    let half = vec!['f', '1', '6'];
    assert(half@ =~= seq!['f', '1', '6']);
    if contains_exec(stem, int8.as_slice()) || contains_exec(stem, q8.as_slice()) {
        (int8, 800)
    } else if contains_exec(stem, int4.as_slice()) || contains_exec(stem, q4.as_slice()) {
        (int4, 400)
    } else if contains_exec(stem, fp16.as_slice()) || contains_exec(stem, half.as_slice()) {
        (fp16, 1600)
    } else {
        (chars_of("fp32"), 3200)
    }
}

// ---------------------------------------------------------------------------
// Categories
// ---------------------------------------------------------------------------

/// `tags.join(" ")`.
pub open spec fn join_spaced(tags: Seq<Seq<char>>) -> Seq<char>
    decreases tags.len(),
{
    if tags.len() == 0 {
        Seq::empty()
    } else if tags.len() == 1 {
        tags[0]
    } else {
        join_spaced(tags.drop_last()) + seq![' '] + tags.last()
    }
}

fn join_spaced_exec(tags: &Vec<Vec<char>>) -> (r: Vec<char>)
    ensures
        r@ == join_spaced(views(tags@)),
{
    let mut r: Vec<char> = Vec::new();
    let mut i: usize = 0;
    while i < tags.len()
        invariant
            i <= tags@.len(),
            r@ == join_spaced(views(tags@).subrange(0, i as int)),
        decreases tags@.len() - i,
    {
        let ghost pre = views(tags@).subrange(0, i + 1);
        assert(pre.drop_last() =~= views(tags@).subrange(0, i as int));
        assert(pre.last() == tags@[i as int]@);
        if i > 0 {
            r.push(' ');
        } else {
            assert(pre =~= seq![tags@[0]@]);
        }
        append_chars(&mut r, tags[i].as_slice());
        i = i + 1;
    }
    assert(views(tags@).subrange(0, tags@.len() as int) =~= views(tags@));
    r
}

/// Category, vision flag, audio flag and input modality of a model.
pub open spec fn categorize(extension: Seq<char>, pipeline_tag: Seq<char>, tags: Seq<Seq<char>>) -> (
    Seq<char>,
    bool,
    bool,
    Seq<char>,
) {
    let joined = join_spaced(tags);
    if extension == "gguf"@ {
        ("chat"@, false, false, "Text"@)
    } else if pipeline_tag == "feature-extraction"@ || pipeline_tag == "sentence-similarity"@
        || pipeline_tag == "zero-shot-classification"@ || contains_seq(joined, "embedding"@)
        || contains_seq(joined, "sentence-transformers"@) {
        ("embedding"@, false, false, "Text"@)
    } else if contains_seq(pipeline_tag, "image"@) || contains_seq(pipeline_tag, "vision"@)
        || contains_seq(joined, "vision"@) || contains_seq(joined, "clip"@) {
        ("vision"@, true, false, "Image + Text"@)
    } else if contains_seq(pipeline_tag, "audio"@) || contains_seq(pipeline_tag, "speech"@)
        || contains_seq(joined, "audio"@) || contains_seq(joined, "whisper"@) {
        ("audio"@, false, true, "Audio + Text"@)
    } else {
        ("chat"@, false, false, "Text"@)
    }
}

pub fn categorize_exec(extension: &[char], pipeline_tag: &[char], tags: &Vec<Vec<char>>) -> (r: (
    Vec<char>,
    bool,
    bool,
    Vec<char>,
))
    ensures
        (r.0@, r.1, r.2, r.3@) == categorize(extension@, pipeline_tag@, views(tags@)),
{
    let gguf = chars_of("gguf");
    if chars_eq(extension, gguf.as_slice()) {
        return (chars_of("chat"), false, false, chars_of("Text"));
    }
    let joined = join_spaced_exec(tags);
    let j = joined.as_slice();
    let fe = chars_of("feature-extraction");
    let ss = chars_of("sentence-similarity");
    let zs = chars_of("zero-shot-classification");
    let emb = chars_of("embedding");
    let st = chars_of("sentence-transformers");
    if chars_eq(pipeline_tag, fe.as_slice()) || chars_eq(pipeline_tag, ss.as_slice())
        || chars_eq(pipeline_tag, zs.as_slice()) || contains_exec(j, emb.as_slice())
        || contains_exec(j, st.as_slice()) {
        return (chars_of("embedding"), false, false, chars_of("Text"));
    }
    let image = chars_of("image");
    let vision = chars_of("vision");
    let clip = chars_of("clip");
    if contains_exec(pipeline_tag, image.as_slice()) || contains_exec(
        pipeline_tag,
        vision.as_slice(),
    ) || contains_exec(j, vision.as_slice()) || contains_exec(j, clip.as_slice()) {
        return (chars_of("vision"), true, false, chars_of("Image + Text"));
    }
    let audio = chars_of("audio");
    let speech = chars_of("speech");
    let whisper = chars_of("whisper");
    if contains_exec(pipeline_tag, audio.as_slice()) || contains_exec(
        pipeline_tag,
        speech.as_slice(),
    ) || contains_exec(j, audio.as_slice()) || contains_exec(j, whisper.as_slice()) {
        return (chars_of("audio"), false, true, chars_of("Audio + Text"));
    }
    (chars_of("chat"), false, false, chars_of("Text"))
}


// ---------------------------------------------------------------------------
// Companion files of a selected model file
// ---------------------------------------------------------------------------

/// Components of `parent.join(name)` where `parent` has the components `pc`.
pub open spec fn append_components(pc: Seq<Seq<char>>, name: Seq<char>) -> Seq<Seq<char>> {
    if (name.len() > 0 && name[0] == '/') || pc.len() == 0 {
        components(name)
    } else {
        pc + crate::paths::component_segments(crate::text::split_char(name, '/'))
    }
}

/// An ONNX external-data file of `filename`: `<name>_data`, `<name>.data`
/// (files or directories) or `<name>_data.bin`, next to the model file.
pub open spec fn onnx_related(filename: Seq<char>, path: Seq<char>) -> bool {
    let pc = parent_components(filename);
    let b = base_name(filename);
    let data_dir = b + "_data"@;
    let dot_data = b + ".data"@;
    let ip = components(path);
    let near = parent_components(path) == pc || is_prefix_components(
        append_components(pc, data_dir),
        ip,
    ) || is_prefix_components(append_components(pc, dot_data), ip);
    let rel = relative_to(path, pc);
    path != filename && near && (rel == data_dir || has_prefix(rel, data_dir + "/"@) || rel
        == dot_data || has_prefix(rel, dot_data + "/"@) || rel == b + "_data.bin"@)
}

/// Another part of the split GGUF model `filename`, in the same directory.
pub open spec fn shard_related(filename: Seq<char>, path: Seq<char>) -> bool {
    let prefix = lower(before_first(base_name(filename), "-000"@));
    path != filename && parent_components(path) == parent_components(filename) && match file_name(
        path,
    ) {
        Some(n) => has_prefix(lower(n), prefix) && contains_seq(lower(n), "-of-"@) && has_suffix(
            lower(n),
            ".gguf"@,
        ),
        None => false,
    }
}

/// The tree entries that satisfy `onnx_related` (`onnx == true`) or
/// `shard_related` (`onnx == false`), in tree order.
pub open spec fn related_items(
    tree: Seq<(Seq<char>, Option<u64>)>,
    filename: Seq<char>,
    onnx: bool,
) -> Seq<(Seq<char>, Option<u64>)>
    decreases tree.len(),
{
    if tree.len() == 0 {
        Seq::empty()
    } else {
        let rest = related_items(tree.drop_last(), filename, onnx);
        let keep = if onnx {
            onnx_related(filename, tree.last().0)
        } else {
            shard_related(filename, tree.last().0)
        };
        if keep {
            rest.push(tree.last())
        } else {
            rest
        }
    }
}

fn append_components_exec(pc: &Vec<Vec<char>>, name: &[char]) -> (r: Vec<Vec<char>>)
    ensures
        views(r@) == append_components(views(pc@), name@),
{
    if (name.len() > 0 && name[0] == '/') || pc.len() == 0 {
        return components_exec(name);
    }
    let c = components_exec(name);
    // `name` is relative: its components are the leading `.` marker, if any,
    // followed by its component segments.
    let mut r: Vec<Vec<char>> = Vec::new();
    let mut i: usize = 0;
    while i < pc.len()
        invariant
            i <= pc@.len(),
            views(r@) == views(pc@).subrange(0, i as int),
        decreases pc@.len() - i,
    {
        let ghost before = views(r@);
        r.push(to_vec(pc[i].as_slice()));
        assert(views(r@) =~= before.push(pc@[i as int]@));
        assert(views(pc@).subrange(0, i + 1) =~= views(pc@).subrange(0, i as int).push(
            pc@[i as int]@,
        ));
        i = i + 1;
    }
    assert(views(pc@).subrange(0, pc@.len() as int) =~= views(pc@));
    let ghost segs = crate::paths::component_segments(crate::text::split_char(name@, '/'));
    let ghost lead = crate::paths::leading_marker(name@);
    assert(views(c@) == lead + segs);
    let skip: usize = if c.len() > 0 && c[0].len() == 1 && c[0][0] == '.' {
        1
    } else {
        0
    };
    proof {
        assert(c@.len() > 0 ==> views(c@)[0] == c@[0]@);
        assert(views(c@).len() == c@.len());
        if lead.len() == 1 {
            assert((lead + segs)[0] == lead[0]);
            assert(lead[0] == crate::paths::cur_marker());
            assert(views(c@)[0] == lead[0]);
            assert(c@[0]@ == crate::paths::cur_marker());
            assert(c@[0]@[0] == '.');
        } else {
            assert(lead.len() == 0);
            if c@.len() > 0 && c@[0]@.len() == 1 && c@[0]@[0] == '.' {
                assert(views(c@)[0] == segs[0]);
                assert(c@[0]@ =~= crate::paths::cur_marker());
                lemma_component_segments_no_cur(crate::text::split_char(name@, '/'), 0);
            }
        }
        assert(lead.len() == skip);
    }
    let mut j: usize = skip;
    while j < c.len()
        invariant
            skip <= j <= c@.len(),
            views(c@) == lead + segs,
            lead.len() == skip,
            c@.len() == skip + segs.len(),
            views(r@) == views(pc@) + segs.subrange(0, j - skip),
        decreases c@.len() - j,
    {
        let ghost before = views(r@);
        r.push(to_vec(c[j].as_slice()));
        assert(views(c@)[j as int] == c@[j as int]@);
        assert((lead + segs)[j as int] == segs[j - skip]);
        assert(views(r@) =~= before.push(segs[j - skip]));
        assert(segs.subrange(0, j + 1 - skip) =~= segs.subrange(0, j - skip).push(segs[j - skip]));
        j = j + 1;
    }
    assert(segs.subrange(0, segs.len() as int) =~= segs);
    r
}

proof fn lemma_component_segments_no_cur(segs: Seq<Seq<char>>, k: int)
    requires
        0 <= k < crate::paths::component_segments(segs).len(),
    ensures
        crate::paths::component_segments(segs)[k] != crate::paths::cur_marker(),
    decreases segs.len(),
{
    if segs.len() > 0 {
        let rest = crate::paths::component_segments(segs.drop_last());
        if k < rest.len() {
            lemma_component_segments_no_cur(segs.drop_last(), k);
        }
    }
}

fn onnx_related_exec(filename: &[char], path: &[char]) -> (r: bool)
    ensures
        r == onnx_related(filename@, path@),
{
    if chars_eq(path, filename) {
        return false;
    }
    let pc = parent_components_exec(filename);
    let b = base_name_exec(filename);
    let data_suffix = chars_of("_data");
    let dot_suffix = chars_of(".data");
    let data_dir = concat(b.as_slice(), data_suffix.as_slice());
    let dot_data = concat(b.as_slice(), dot_suffix.as_slice());
    let ip = components_exec(path);
    let ipc = parent_components_exec(path);
    let a1 = append_components_exec(&pc, data_dir.as_slice());
    let a2 = append_components_exec(&pc, dot_data.as_slice());
    let near = component_lists_eq(ipc.as_slice(), pc.as_slice()) || is_prefix_components_exec(
        a1.as_slice(),
        ip.as_slice(),
    ) || is_prefix_components_exec(a2.as_slice(), ip.as_slice());
    if !near {
        return false;
    }
    let rel = relative_to_exec(path, pc.as_slice());
    let slash = chars_of("/");
    let data_dir_slash = concat(data_dir.as_slice(), slash.as_slice());
    let dot_data_slash = concat(dot_data.as_slice(), slash.as_slice());
    let bin_suffix = chars_of("_data.bin");
    let data_bin = concat(b.as_slice(), bin_suffix.as_slice());
    chars_eq(rel.as_slice(), data_dir.as_slice()) || starts_with(
        rel.as_slice(),
        data_dir_slash.as_slice(),
    ) || chars_eq(rel.as_slice(), dot_data.as_slice()) || starts_with(
        rel.as_slice(),
        dot_data_slash.as_slice(),
    ) || chars_eq(rel.as_slice(), data_bin.as_slice())
}

fn shard_related_exec(filename: &[char], path: &[char]) -> (r: bool)
    ensures
        r == shard_related(filename@, path@),
{
    if chars_eq(path, filename) {
        return false;
    }
    let b = base_name_exec(filename);
    let marker = chars_of("-000");
    let head = before_first_exec(b.as_slice(), marker.as_slice());
    let prefix = to_lower(head.as_slice());
    let pc = parent_components_exec(filename);
    let ipc = parent_components_exec(path);
    if !component_lists_eq(ipc.as_slice(), pc.as_slice()) {
        return false;
    }
    match file_name_exec(path) {
        Some(n) => {
            let l = to_lower(n.as_slice());
            let of = chars_of("-of-");
            let ext = chars_of(".gguf");
            starts_with(l.as_slice(), prefix.as_slice()) && contains_exec(
                l.as_slice(),
                of.as_slice(),
            ) && ends_with(l.as_slice(), ext.as_slice())
        },
        None => false,
    }
}

/// The ONNX external-data files (`onnx`) or the other split GGUF parts of
/// `filename` found in the repository tree, in tree order.
fn related_assets(tree: &Vec<TreeItem>, filename: &str, onnx: bool) -> (r: Vec<TreeItem>)
    ensures
        tree_views(r@) == related_items(tree_views(tree@), filename@, onnx),
{
    let f = chars_of(filename);
    let mut r: Vec<TreeItem> = Vec::new();
    let mut i: usize = 0;
    while i < tree.len()
        invariant
            i <= tree@.len(),
            f@ == filename@,
            tree_views(r@) == related_items(
                tree_views(tree@).subrange(0, i as int),
                filename@,
                onnx,
            ),
        decreases tree@.len() - i,
    {
        let ghost pre = tree_views(tree@).subrange(0, i + 1);
        assert(pre.drop_last() =~= tree_views(tree@).subrange(0, i as int));
        assert(pre.last() == tree@[i as int]@);
        let p = chars_of(tree[i].path.as_str());
        let keep = if onnx {
            onnx_related_exec(f.as_slice(), p.as_slice())
        } else {
            shard_related_exec(f.as_slice(), p.as_slice())
        };
        if keep {
            let ghost before = tree_views(r@);
            r.push(copy_tree_item(&tree[i]));
            assert(tree_views(r@) =~= before.push(tree@[i as int]@));
        }
        i = i + 1;
    }
    assert(tree_views(tree@).subrange(0, tree@.len() as int) =~= tree_views(tree@));
    r
}


// ---------------------------------------------------------------------------
// Variants of a repository
// ---------------------------------------------------------------------------

/// Lexicographic order of strings (`String`'s `Ord`, which follows code points).
pub open spec fn lex_lt(a: Seq<char>, b: Seq<char>) -> bool
    decreases a.len(),
{
    if b.len() == 0 {
        false
    } else if a.len() == 0 {
        true
    } else if a[0] < b[0] {
        true
    } else if a[0] > b[0] {
        false
    } else {
        lex_lt(a.drop_first(), b.drop_first())
    }
}

pub proof fn lemma_lex_lt_transitive(a: Seq<char>, b: Seq<char>, c: Seq<char>)
    requires
        lex_lt(a, b),
        lex_lt(b, c),
    ensures
        lex_lt(a, c),
    decreases a.len(),
{
    if a.len() > 0 && b.len() > 0 && c.len() > 0 && a[0] == b[0] && b[0] == c[0] {
        lemma_lex_lt_transitive(a.drop_first(), b.drop_first(), c.drop_first());
    }
}

pub proof fn lemma_lex_lt_irreflexive(a: Seq<char>)
    ensures
        !lex_lt(a, a),
    decreases a.len(),
{
    if a.len() > 0 {
        lemma_lex_lt_irreflexive(a.drop_first());
    }
}

pub(crate) fn lex_lt_exec(a: &[char], b: &[char]) -> (r: bool)
    ensures
        r == lex_lt(a@, b@),
{
    let mut i: usize = 0;
    assert(a@.subrange(0, a@.len() as int) =~= a@);
    assert(b@.subrange(0, b@.len() as int) =~= b@);
    while i < a.len() && i < b.len() && a[i] == b[i]
        invariant
            i <= a@.len(),
            i <= b@.len(),
            lex_lt(a@, b@) == lex_lt(
                a@.subrange(i as int, a@.len() as int),
                b@.subrange(i as int, b@.len() as int),
            ),
        decreases a@.len() - i,
    {
        assert(a@.subrange(i as int, a@.len() as int).drop_first() =~= a@.subrange(
            i + 1,
            a@.len() as int,
        ));
        assert(b@.subrange(i as int, b@.len() as int).drop_first() =~= b@.subrange(
            i + 1,
            b@.len() as int,
        ));
        i = i + 1;
    }
    if i == b.len() {
        false
    } else if i == a.len() {
        true
    } else {
        assert(a@.subrange(i as int, a@.len() as int)[0] == a@[i as int]);
        assert(b@.subrange(i as int, b@.len() as int)[0] == b@[i as int]);
        a[i] < b[i]
    }
}

/// Variants ordered by file name.
pub open spec fn sorted_by_name(s: Seq<(Seq<char>, u128)>) -> bool {
    forall|i: int, j: int| 0 <= i < j < s.len() ==> !lex_lt(#[trigger] s[j].0, #[trigger] s[i].0)
}

/// Stable insertion sort of variants by file name.
fn sort_by_name(v: Vec<HfVariant>) -> (r: Vec<HfVariant>)
    ensures
        sorted_by_name(variant_views(r@)),
        variant_views(r@).to_multiset() == variant_views(v@).to_multiset(),
{
    let mut out: Vec<HfVariant> = Vec::new();
    let mut input = v;
    let ghost all = variant_views(input@);
    assert(all.subrange(0, all.len() as int) =~= all);
    assert(variant_views(out@) =~= all.subrange(all.len() as int, all.len() as int));
    // Consume the input from the back, inserting each item before the first
    // strictly larger name among those already placed, which were later in the input.
    // Stability: an item placed later must precede equal names placed earlier,
    // so insert before the first item whose name is not smaller.
    while input.len() > 0
        invariant
            input@.len() <= all.len(),
            variant_views(input@) == all.subrange(0, input@.len() as int),
            sorted_by_name(variant_views(out@)),
            variant_views(out@).to_multiset() == all.subrange(
                input@.len() as int,
                all.len() as int,
            ).to_multiset(),
        decreases input@.len(),
    {
        let ghost before_in = variant_views(input@);
        let x = input.pop().unwrap();
        assert(variant_views(input@) =~= before_in.drop_last());
        assert(x@ == before_in.last());
        let xn = chars_of(x.filename.as_str());
        let mut pos: usize = 0;
        while pos < out.len() && lex_lt_exec(
            chars_of(out[pos].filename.as_str()).as_slice(),
            xn.as_slice(),
        )
            invariant
                pos <= out@.len(),
                xn@ == x@.0,
                forall|k: int| 0 <= k < pos ==> lex_lt(#[trigger] out@[k]@.0, x@.0),
            decreases out@.len() - pos,
        {
            pos = pos + 1;
        }
        let ghost old_out = variant_views(out@);
        proof {
            assert(pos < old_out.len() ==> !lex_lt(old_out[pos as int].0, x@.0));
            assert forall|k: int| 0 <= k < pos implies lex_lt(#[trigger] old_out[k].0, x@.0) by {
                assert(old_out[k] == out@[k]@);
            }
        }
        out.insert(pos, x);
        let ghost new_out = variant_views(out@);
        assert(new_out =~= old_out.insert(pos as int, x@));
        proof {
            vstd::seq_lib::to_multiset_insert(old_out, pos as int, x@);
            let rest_old = all.subrange(input@.len() as int + 1, all.len() as int);
            let rest_new = all.subrange(input@.len() as int, all.len() as int);
            assert(rest_new =~= rest_old.insert(0, x@));
            vstd::seq_lib::to_multiset_insert(rest_old, 0, x@);
            assert forall|i: int, j: int| 0 <= i < j < new_out.len() implies !lex_lt(
                #[trigger] new_out[j].0,
                #[trigger] new_out[i].0,
            ) by {
                if j < pos {
                    assert(new_out[i] == old_out[i] && new_out[j] == old_out[j]);
                } else if j == pos {
                    assert(new_out[i] == old_out[i]);
                    assert(lex_lt(old_out[i].0, x@.0));
                    if lex_lt(x@.0, old_out[i].0) {
                        lemma_lex_lt_transitive(x@.0, old_out[i].0, x@.0);
                        lemma_lex_lt_irreflexive(x@.0);
                    }
                } else if i == pos {
                    assert(new_out[j] == old_out[j - 1]);
                    assert(!lex_lt(old_out[pos as int].0, x@.0));
                    if lex_lt(old_out[j - 1].0, x@.0) {
                        if j - 1 > pos {
                            assert(!lex_lt(old_out[j - 1].0, old_out[pos as int].0));
                        }
                        assert(false) by {
                            if j - 1 > pos {
                                // old_out[pos] <= old_out[j-1] < x would make old_out[pos] < x
                                if lex_lt(old_out[j - 1].0, x@.0) {
                                    lex_total(old_out[pos as int].0, old_out[j - 1].0);
                                    if lex_lt(old_out[pos as int].0, old_out[j - 1].0) {
                                        lemma_lex_lt_transitive(
                                            old_out[pos as int].0,
                                            old_out[j - 1].0,
                                            x@.0,
                                        );
                                    }
                                }
                            }
                        }
                    }
                } else if i < pos {
                    assert(new_out[i] == old_out[i] && new_out[j] == old_out[j - 1]);
                } else {
                    assert(new_out[i] == old_out[i - 1] && new_out[j] == old_out[j - 1]);
                }
            }
        }
    }
    assert(all.subrange(0, all.len() as int) =~= all);
    out
}

/// Two names neither of which is smaller than the other are equal.
pub proof fn lex_total(a: Seq<char>, b: Seq<char>)
    ensures
        lex_lt(a, b) || lex_lt(b, a) || a == b,
    decreases a.len(),
{
    if a.len() > 0 && b.len() > 0 && a[0] == b[0] {
        lex_total(a.drop_first(), b.drop_first());
        if a.drop_first() == b.drop_first() {
            assert(a =~= seq![a[0]] + a.drop_first());
            assert(b =~= seq![b[0]] + b.drop_first());
        }
    } else if a.len() == 0 && b.len() == 0 {
        assert(a =~= b);
    }
}


/// A GGUF or ONNX model file.
pub open spec fn is_model_file(path: Seq<char>) -> bool {
    has_suffix(lower(path), ".gguf"@) || has_suffix(lower(path), ".onnx"@)
}

/// Files downloaded together with `path`: ONNX external data, or the other
/// parts of a split GGUF model.
pub open spec fn companions(tree: Seq<(Seq<char>, Option<u64>)>, path: Seq<char>) -> Seq<
    (Seq<char>, Option<u64>),
> {
    if has_suffix(lower(path), ".onnx"@) {
        related_items(tree, path, true)
    } else if is_split_gguf(path) {
        related_items(tree, path, false)
    } else {
        Seq::empty()
    }
}

pub open spec fn size_or_zero(s: Option<u64>) -> nat {
    match s {
        Some(v) => v as nat,
        None => 0,
    }
}

/// Sum of the listed sizes (a missing size counts as zero).
pub open spec fn size_total(items: Seq<(Seq<char>, Option<u64>)>) -> nat
    decreases items.len(),
{
    if items.len() == 0 {
        0
    } else {
        size_total(items.drop_last()) + size_or_zero(items.last().1)
    }
}

/// Every model file of `items` with its size plus the sizes of its companions.
pub open spec fn raw_variants(
    tree: Seq<(Seq<char>, Option<u64>)>,
    items: Seq<(Seq<char>, Option<u64>)>,
) -> Seq<(Seq<char>, u128)>
    decreases items.len(),
{
    if items.len() == 0 {
        Seq::empty()
    } else {
        let rest = raw_variants(tree, items.drop_last());
        let item = items.last();
        if is_model_file(item.0) {
            rest.push(
                (item.0, (size_or_zero(item.1) + size_total(companions(tree, item.0))) as u128),
            )
        } else {
            rest
        }
    }
}

/// The variants that are not a secondary part of a split GGUF model.
pub open spec fn primary_variants(v: Seq<(Seq<char>, u128)>) -> Seq<(Seq<char>, u128)>
    decreases v.len(),
{
    if v.len() == 0 {
        Seq::empty()
    } else if is_non_primary_shard(v.last().0) {
        primary_variants(v.drop_last())
    } else {
        primary_variants(v.drop_last()).push(v.last())
    }
}

pub open spec fn no_model_files_message(repository: Seq<char>) -> Seq<char> {
    "No GGUF or ONNX model files were found in '"@ + repository + "'."@
}

pub open spec fn no_primary_variants_message(repository: Seq<char>) -> Seq<char> {
    "No primary GGUF or ONNX variants were found in '"@ + repository + "'."@
}

proof fn lemma_related_items_len(
    tree: Seq<(Seq<char>, Option<u64>)>,
    filename: Seq<char>,
    onnx: bool,
)
    ensures
        related_items(tree, filename, onnx).len() <= tree.len(),
    decreases tree.len(),
{
    if tree.len() > 0 {
        lemma_related_items_len(tree.drop_last(), filename, onnx);
    }
}

proof fn lemma_size_total_bound(items: Seq<(Seq<char>, Option<u64>)>)
    ensures
        size_total(items) <= items.len() * 0xffff_ffff_ffff_ffffnat,
    decreases items.len(),
{
    if items.len() > 0 {
        lemma_size_total_bound(items.drop_last());
    }
}

fn size_total_exec(items: &Vec<TreeItem>) -> (r: u128)
    ensures
        r == size_total(tree_views(items@)),
{
    let mut acc: u128 = 0;
    let mut i: usize = 0;
    while i < items.len()
        invariant
            i <= items@.len(),
            acc == size_total(tree_views(items@).subrange(0, i as int)),
            acc <= i * 0xffff_ffff_ffff_ffffnat,
        decreases items@.len() - i,
    {
        let ghost pre = tree_views(items@).subrange(0, i + 1);
        assert(pre.drop_last() =~= tree_views(items@).subrange(0, i as int));
        assert(pre.last() == items@[i as int]@);
        let add: u128 = match items[i].size {
            Some(v) => v as u128,
            None => 0,
        };
        assert(i * 0xffff_ffff_ffff_ffffnat + 0xffff_ffff_ffff_ffffnat < 0x1_0000_0000_0000_0000_0000_0000_0000_0000nat) by (nonlinear_arith)
            requires i < 0x1_0000_0000_0000_0000nat;
        acc = acc + add;
        i = i + 1;
    }
    assert(tree_views(items@).subrange(0, items@.len() as int) =~= tree_views(items@));
    acc
}

impl HuggingFaceHub {
    /// The model files of a repository tree, each with its total download size,
    /// ordered by file name, without the secondary parts of split GGUF models.
    pub fn list_variants(repository_id: &str, tree: &Vec<TreeItem>) -> (r: Result<
        Vec<HfVariant>,
        String,
    >)
        ensures
            ({
                let raw = raw_variants(tree_views(tree@), tree_views(tree@));
                let primary = primary_variants(raw);
                match r {
                    Ok(v) => raw.len() > 0 && primary.len() > 0 && sorted_by_name(variant_views(v@))
                        && variant_views(v@).to_multiset() == primary.to_multiset(),
                    Err(e) => (raw.len() == 0 && e@ == no_model_files_message(repository_id@)) || (
                    raw.len() > 0 && primary.len() == 0 && e@ == no_primary_variants_message(
                        repository_id@,
                    )),
                }
            }),
    {
        let ghost tv = tree_views(tree@);
        let gguf_ext = chars_of(".gguf");
        let onnx_ext = chars_of(".onnx");
        let mut raw: Vec<HfVariant> = Vec::new();
        let mut primary: Vec<HfVariant> = Vec::new();
        let mut i: usize = 0;
        while i < tree.len()
            invariant
                i <= tree@.len(),
                tv == tree_views(tree@),
                gguf_ext@ == ".gguf"@,
                onnx_ext@ == ".onnx"@,
                variant_views(raw@) == raw_variants(tv, tv.subrange(0, i as int)),
                variant_views(primary@) == primary_variants(raw_variants(tv, tv.subrange(0, i as int))),
            decreases tree@.len() - i,
        {
            let ghost pre = tv.subrange(0, i + 1);
            assert(pre.drop_last() =~= tv.subrange(0, i as int));
            assert(pre.last() == tree@[i as int]@);
            let path = chars_of(tree[i].path.as_str());
            let lowered = to_lower(path.as_slice());
            let is_onnx = ends_with(lowered.as_slice(), onnx_ext.as_slice());
            if ends_with(lowered.as_slice(), gguf_ext.as_slice()) || is_onnx {
                let companions_total: u128 = if is_onnx {
                    let rel = related_assets(tree, tree[i].path.as_str(), true);
                    proof {
                        lemma_related_items_len(tv, path@, true);
                        lemma_size_total_bound(tree_views(rel@));
                    }
                    size_total_exec(&rel)
                } else if is_split_gguf_exec(path.as_slice()) {
                    let rel = related_assets(tree, tree[i].path.as_str(), false);
                    proof {
                        lemma_related_items_len(tv, path@, false);
                        lemma_size_total_bound(tree_views(rel@));
                    }
                    size_total_exec(&rel)
                } else {
                    0
                };
                let own: u128 = match tree[i].size {
                    Some(v) => v as u128,
                    None => 0,
                };
                assert(size_total(companions(tv, path@)) <= tv.len() * 0xffff_ffff_ffff_ffffnat);
                assert(tv.len() * 0xffff_ffff_ffff_ffffnat + 0xffff_ffff_ffff_ffffnat < 0x1_0000_0000_0000_0000_0000_0000_0000_0000nat) by (nonlinear_arith)
                    requires tv.len() < 0x1_0000_0000_0000_0000nat;
                let total = own + companions_total;
                let ghost v_raw = variant_views(raw@);
                raw.push(HfVariant { filename: copy_string(&tree[i].path), size_bytes: total });
                assert(variant_views(raw@) =~= v_raw.push((path@, total)));
                assert(variant_views(raw@).drop_last() =~= v_raw);
                assert(variant_views(raw@).last() == (path@, total));
                if !HuggingFaceHub::is_non_primary_gguf_shard(tree[i].path.as_str()) {
                    let ghost v_primary = variant_views(primary@);
                    primary.push(HfVariant { filename: copy_string(&tree[i].path), size_bytes: total });
                    assert(variant_views(primary@) =~= v_primary.push((path@, total)));
                }
            }
            i = i + 1;
        }
        assert(tv.subrange(0, tree@.len() as int) =~= tv);
        if raw.len() == 0 {
            let m = concat3(
                chars_of("No GGUF or ONNX model files were found in '").as_slice(),
                chars_of(repository_id).as_slice(),
                chars_of("'.").as_slice(),
            );
            return Err(string_of(m.as_slice()));
        }
        if primary.len() == 0 {
            let m = concat3(
                chars_of("No primary GGUF or ONNX variants were found in '").as_slice(),
                chars_of(repository_id).as_slice(),
                chars_of("'.").as_slice(),
            );
            return Err(string_of(m.as_slice()));
        }
        Ok(sort_by_name(primary))
    }
}


// ---------------------------------------------------------------------------
// Manifest construction
// ---------------------------------------------------------------------------

/// Metadata of a repository: its pipeline tag and its tags.
pub struct RepositoryMetadata {
    pub pipeline_tag: Option<String>,
    pub tags: Vec<String>,
}

/// The value of the first entry of `m` whose key is `key`.
pub open spec fn meta_get(m: Seq<(Seq<char>, Seq<char>)>, key: Seq<char>) -> Option<Seq<char>>
    decreases m.len(),
{
    if m.len() == 0 {
        None
    } else if m[0].0 == key {
        Some(m[0].1)
    } else {
        meta_get(m.drop_first(), key)
    }
}

pub open spec fn pair_views(m: Seq<(String, String)>) -> Seq<(Seq<char>, Seq<char>)> {
    m.map_values(|p: (String, String)| (p.0@, p.1@))
}

fn meta_get_exec(m: &Vec<(String, String)>, key: &[char]) -> (r: Option<Vec<char>>)
    ensures
        match r {
            Some(v) => meta_get(pair_views(m@), key@) == Some(v@),
            None => meta_get(pair_views(m@), key@) is None,
        },
{
    let ghost all = pair_views(m@);
    let mut i: usize = 0;
    assert(all.subrange(0, all.len() as int) =~= all);
    while i < m.len()
        invariant
            i <= m@.len(),
            all == pair_views(m@),
            meta_get(all, key@) == meta_get(all.subrange(i as int, all.len() as int), key@),
        decreases m@.len() - i,
    {
        let ghost rest = all.subrange(i as int, all.len() as int);
        assert(rest[0] == (m@[i as int].0@, m@[i as int].1@));
        assert(rest.drop_first() =~= all.subrange(i + 1, all.len() as int));
        let k = chars_of(m[i].0.as_str());
        if chars_eq(k.as_slice(), key) {
            return Some(chars_of(m[i].1.as_str()));
        }
        i = i + 1;
    }
    None
}

/// The repository slug: the last path segment, trimmed and lower-cased.
pub open spec fn repository_slug(repository: Seq<char>) -> Seq<char> {
    lower(trim(after_last_char(repository, '/')))
}

/// The lower-cased extension of the selected file, or empty.
pub open spec fn model_extension(filename: Seq<char>) -> Seq<char> {
    match extension(filename) {
        Some(e) => lower(e),
        None => Seq::empty(),
    }
}

/// The file stem used for ONNX precision labels.
pub open spec fn model_stem(base: Seq<char>) -> Seq<char> {
    lower(
        strip_suffixes(
            strip_suffixes(strip_suffixes(strip_suffixes(base, ".gguf"@), ".GGUF"@), ".onnx"@),
            ".ONNX"@,
        ),
    )
}

/// A context length shown in thousands (`32768` is `32k`) from 1024 on.
pub open spec fn context_label(raw: nat) -> Seq<char> {
    if raw >= 1024 {
        decimal(raw / 1024) + "k"@
    } else {
        decimal(raw)
    }
}

pub open spec fn or_else(a: Option<Seq<char>>, b: Option<Seq<char>>) -> Option<Seq<char>> {
    match a {
        Some(x) => Some(x),
        None => b,
    }
}

pub open spec fn unwrap_or_seq(a: Option<Seq<char>>, d: Seq<char>) -> Seq<char> {
    match a {
        Some(x) => x,
        None => d,
    }
}

/// Architecture read from a GGUF header (`GGUF` when absent).
pub open spec fn gguf_architecture(meta: Option<Seq<(Seq<char>, Seq<char>)>>) -> Seq<char> {
    match meta {
        Some(m) => unwrap_or_seq(meta_get(m, "general.architecture"@), "GGUF"@),
        None => "GGUF"@,
    }
}

/// Parameter count read from a GGUF header (empty when absent).
pub open spec fn gguf_parameters(meta: Option<Seq<(Seq<char>, Seq<char>)>>) -> Seq<char> {
    match meta {
        Some(m) => unwrap_or_seq(meta_get(m, "general.parameter_count"@), Seq::empty()),
        None => Seq::empty(),
    }
}

/// Context window read from a GGUF header (`8k` when absent or unreadable).
pub open spec fn gguf_context(meta: Option<Seq<(Seq<char>, Seq<char>)>>) -> Seq<char> {
    match meta {
        Some(m) => {
            let arch = gguf_architecture(meta);
            let v = or_else(
                meta_get(m, arch + ".context_length"@),
                or_else(
                    meta_get(m, "llama.context_length"@),
                    meta_get(m, "qwen2.context_length"@),
                ),
            );
            match v {
                Some(text) => match parse_unsigned(text, u64::MAX as nat) {
                    Some(raw) => context_label(raw),
                    None => "8k"@,
                },
                None => "8k"@,
            }
        },
        None => "8k"@,
    }
}

/// The companion files listed in a manifest for the selected file.
pub open spec fn manifest_related(
    tree: Seq<(Seq<char>, Option<u64>)>,
    filename: Seq<char>,
    ext: Seq<char>,
) -> Seq<(Seq<char>, Option<u64>)> {
    if ext == "onnx"@ {
        related_items(tree, filename, true)
    } else if is_split_gguf(filename) {
        related_items(tree, filename, false)
    } else {
        Seq::empty()
    }
}

/// Asset name (relative to the selected file's directory) and download URL.
pub open spec fn asset_of(
    repository: Seq<char>,
    filename: Seq<char>,
    item: (Seq<char>, Option<u64>),
) -> (Seq<char>, Seq<char>) {
    (relative_to(item.0, parent_components(filename)), resolve_url(repository, item.0))
}

pub open spec fn assets_of(
    repository: Seq<char>,
    filename: Seq<char>,
    items: Seq<(Seq<char>, Option<u64>)>,
) -> Seq<(Seq<char>, Seq<char>)> {
    items.map_values(|it: (Seq<char>, Option<u64>)| asset_of(repository, filename, it))
}

pub open spec fn invalid_filename_message(filename: Seq<char>) -> Seq<char> {
    "Invalid Hugging Face filename: "@ + filename
}

pub open spec fn unsupported_format_message(ext: Seq<char>) -> Seq<char> {
    "Unsupported model format: "@ + ext
}

/// Whether `build_manifest` succeeds, and with which error it fails.
pub open spec fn manifest_error(repository: Seq<char>, filename: Seq<char>) -> Option<Seq<char>> {
    match file_name(filename) {
        None => Some(invalid_filename_message(filename)),
        Some(b) => if trim(b).len() == 0 {
            Some(invalid_filename_message(filename))
        } else if repository_slug(repository).len() == 0 {
            Some("Invalid Hugging Face repository ID"@)
        } else if model_extension(filename) != "gguf"@ && model_extension(filename) != "onnx"@ {
            Some(unsupported_format_message(model_extension(filename)))
        } else {
            None
        },
    }
}

/// Stable identifier and bit depth (hundredths of a bit) of a manifest.
pub open spec fn manifest_id(repository: Seq<char>, filename: Seq<char>) -> (Seq<char>, nat) {
    let slug = repository_slug(repository);
    let ext = model_extension(filename);
    if ext == "onnx"@ {
        let q = onnx_precision(model_stem(base_name(filename)));
        (slug + ":"@ + ext + ":"@ + q.0, q.1)
    } else {
        let q = gguf_quantization(filename);
        (slug + ":gguf:"@ + q.0, q.1)
    }
}

fn assets_of_exec(repository: &[char], filename: &[char], items: &Vec<TreeItem>) -> (r: Vec<
    ModelAsset,
>)
    ensures
        asset_views(r@) == assets_of(repository@, filename@, tree_views(items@)),
{
    let pc = parent_components_exec(filename);
    let mut r: Vec<ModelAsset> = Vec::new();
    let mut i: usize = 0;
    while i < items.len()
        invariant
            i <= items@.len(),
            views(pc@) == parent_components(filename@),
            asset_views(r@) == assets_of(
                repository@,
                filename@,
                tree_views(items@).subrange(0, i as int),
            ),
        decreases items@.len() - i,
    {
        let p = chars_of(items[i].path.as_str());
        let name = relative_to_exec(p.as_slice(), pc.as_slice());
        let url = resolve_url_exec(repository, p.as_slice());
        let ghost before = asset_views(r@);
        r.push(ModelAsset { name: string_of(name.as_slice()), url: string_of(url.as_slice()) });
        assert(asset_views(r@) =~= before.push(
            asset_of(repository@, filename@, items@[i as int]@),
        ));
        assert(assets_of(repository@, filename@, tree_views(items@).subrange(0, i + 1))
            =~= assets_of(repository@, filename@, tree_views(items@).subrange(0, i as int)).push(
            asset_of(repository@, filename@, items@[i as int]@),
        ));
        i = i + 1;
    }
    assert(tree_views(items@).subrange(0, items@.len() as int) =~= tree_views(items@));
    r
}

fn context_label_exec(raw: u64) -> (r: Vec<char>)
    ensures
        r@ == context_label(raw as nat),
{
    if raw >= 1024 {
        let mut d = decimal_exec(raw / 1024);
        d.push('k');
        proof {
            reveal_strlit("k");
        }
        assert(d@ =~= decimal((raw / 1024) as nat) + "k"@);
        d
    } else {
        decimal_exec(raw)
    }
}

fn gguf_header_exec(meta: Option<&Vec<(String, String)>>) -> (r: (Vec<char>, Vec<char>, Vec<char>))
    ensures
        ({
            let m = match meta {
                Some(v) => Some(pair_views(v@)),
                None => None,
            };
            r.0@ == gguf_architecture(m) && r.1@ == gguf_parameters(m) && r.2@ == gguf_context(m)
        }),
{
    match meta {
        None => (chars_of("GGUF"), Vec::new(), chars_of("8k")),
        Some(m) => {
            let arch = match meta_get_exec(m, chars_of("general.architecture").as_slice()) {
                Some(a) => a,
                None => chars_of("GGUF"),
            };
            let params = match meta_get_exec(m, chars_of("general.parameter_count").as_slice()) {
                Some(p) => p,
                None => Vec::new(),
            };
            let key = concat(arch.as_slice(), chars_of(".context_length").as_slice());
            let found = match meta_get_exec(m, key.as_slice()) {
                Some(v) => Some(v),
                None => match meta_get_exec(m, chars_of("llama.context_length").as_slice()) {
                    Some(v) => Some(v),
                    None => meta_get_exec(m, chars_of("qwen2.context_length").as_slice()),
                },
            };
            let ctx = match found {
                Some(text) => match parse_u64_exec(text.as_slice()) {
                    Some(raw) => context_label_exec(raw),
                    None => chars_of("8k"),
                },
                None => chars_of("8k"),
            };
            (arch, params, ctx)
        },
    }
}

impl HuggingFaceHub {
    /// Checks a manifest request before anything is fetched: the file name,
    /// the repository id and the model format, with the error
    /// `build_manifest` would give.
    pub fn validate_manifest_request(repository_id: &str, filename: &str) -> (r: Result<(), String>)
        ensures
            match manifest_error(repository_id@, filename@) {
                Some(e) => r matches Err(msg) && msg@ == e,
                None => r is Ok,
            },
    {
        let f = chars_of(filename);
        let repo = chars_of(repository_id);
        let valid_name = match file_name_exec(f.as_slice()) {
            Some(b) => trim_exec(b.as_slice()).len() > 0,
            None => false,
        };
        if !valid_name {
            let m = concat(chars_of("Invalid Hugging Face filename: ").as_slice(), f.as_slice());
            return Err(string_of(m.as_slice()));
        }
        let last = after_last_char_exec(repo.as_slice(), '/');
        let trimmed = trim_exec(last.as_slice());
        let slug = to_lower(trimmed.as_slice());
        if slug.len() == 0 {
            return Err(string_of(chars_of("Invalid Hugging Face repository ID").as_slice()));
        }
        let ext = match extension_exec(f.as_slice()) {
            Some(e) => to_lower(e.as_slice()),
            None => Vec::new(),
        };
        if !chars_eq(ext.as_slice(), chars_of("gguf").as_slice()) && !chars_eq(ext.as_slice(), chars_of("onnx").as_slice()) {
            let m = concat(chars_of("Unsupported model format: ").as_slice(), ext.as_slice());
            return Err(string_of(m.as_slice()));
        }
        Ok(())
    }

    /// Builds the manifest of `filename` in a Hugging Face repository.
    ///
    /// `gguf_header` is the key/value header read from a GGUF file (if it could be
    /// read), `repository` the repository's metadata (if it could be fetched) and
    /// `tree` the repository's file listing (empty if it could not be fetched).
    pub fn build_manifest(
        repository_id: &str,
        filename: &str,
        download_size_bytes: u128,
        gguf_header: Option<&Vec<(String, String)>>,
        repository: Option<&RepositoryMetadata>,
        tree: &Vec<TreeItem>,
    ) -> (r: Result<ModelManifest, String>)
        ensures
            match manifest_error(repository_id@, filename@) {
                Some(e) => r matches Err(msg) && msg@ == e,
                None => r is Ok,
            },
            r matches Ok(m) ==> ({
                let repo = repository_id@;
                let f = filename@;
                let ext = model_extension(f);
                let slug = repository_slug(repo);
                let header = if ext == "gguf"@ {
                    match gguf_header {
                        Some(v) => Some(pair_views(v@)),
                        None => None,
                    }
                } else {
                    None
                };
                let pipeline = match repository {
                    Some(md) => lower(unwrap_or_seq(crate::manifest::opt_view(md.pipeline_tag), Seq::empty())),
                    None => Seq::empty(),
                };
                let tags = match repository {
                    Some(md) => views_lower(md.tags@),
                    None => Seq::empty(),
                };
                let cat = categorize(ext, pipeline, tags);
                &&& m.id@ == manifest_id(repo, f).0
                &&& m.bit_depth_centi as nat == manifest_id(repo, f).1
                &&& m.name@ == replace_all(slug, "-"@, " "@)
                &&& m.architecture@ == (if ext == "onnx"@ {
                    "ONNX"@
                } else {
                    gguf_architecture(header)
                })
                &&& m.architecture_type@ == ext
                &&& m.parameters@ == (if ext == "onnx"@ {
                    Seq::empty()
                } else {
                    gguf_parameters(header)
                })
                &&& m.training_tokens@ == Seq::<char>::empty()
                &&& m.ram_overhead_centi_gb == (if ext == "onnx"@ {
                    35u32
                } else {
                    50u32
                })
                &&& m.download_size_bytes == download_size_bytes
                &&& m.huggingface_repo@ == repo
                &&& m.huggingface_filename@ == base_name(f)
                &&& m.download_url@ == resolve_url(repo, f)
                &&& m.description@ == "Hugging Face "@ + upper(ext) + " model from "@ + repo
                &&& !m.is_cloud_api && !m.requires_gpu && m.is_free_tier
                &&& m.input_modality@ == cat.3
                &&& m.context_window@ == (if ext == "onnx"@ {
                    "8k"@
                } else {
                    gguf_context(header)
                })
                &&& m.family@ == slug
                &&& m.category@ == cat.0
                &&& m.has_vision == cat.1
                &&& m.has_audio == cat.2
                &&& asset_views(m.assets@) == assets_of(
                    repo,
                    f,
                    manifest_related(tree_views(tree@), f, ext),
                )
                &&& m.local_path is None && m.dna_path is None
                &&& m.expert_count is None && m.experts_per_token is None
            }),
    {
        let f = chars_of(filename);
        let repo = chars_of(repository_id);
        let basename = match file_name_exec(f.as_slice()) {
            Some(b) => {
                let t = trim_exec(b.as_slice());
                if t.len() == 0 {
                    let m = concat(chars_of("Invalid Hugging Face filename: ").as_slice(), f.as_slice());
                    return Err(string_of(m.as_slice()));
                }
                b
            },
            None => {
                let m = concat(chars_of("Invalid Hugging Face filename: ").as_slice(), f.as_slice());
                return Err(string_of(m.as_slice()));
            },
        };
        let last = after_last_char_exec(repo.as_slice(), '/');
        let trimmed = trim_exec(last.as_slice());
        let slug = to_lower(trimmed.as_slice());
        if slug.len() == 0 {
            return Err(string_of(chars_of("Invalid Hugging Face repository ID").as_slice()));
        }
        let ext = match extension_exec(f.as_slice()) {
            Some(e) => to_lower(e.as_slice()),
            None => Vec::new(),
        };
        let gguf = chars_of("gguf");
        let onnx = chars_of("onnx");
        let is_gguf = chars_eq(ext.as_slice(), gguf.as_slice());
        let is_onnx = chars_eq(ext.as_slice(), onnx.as_slice());
        if !is_gguf && !is_onnx {
            let m = concat(chars_of("Unsupported model format: ").as_slice(), ext.as_slice());
            return Err(string_of(m.as_slice()));
        }
        let (id, bit_depth) = if is_onnx {
            let s1 = strip_suffixes_exec(basename.as_slice(), chars_of(".gguf").as_slice());
            let s2 = strip_suffixes_exec(s1.as_slice(), chars_of(".GGUF").as_slice());
            let s3 = strip_suffixes_exec(s2.as_slice(), chars_of(".onnx").as_slice());
            let s4 = strip_suffixes_exec(s3.as_slice(), chars_of(".ONNX").as_slice());
            let stem = to_lower(s4.as_slice());
            let (q, b) = onnx_precision_exec(stem.as_slice());
            let mut id = concat3(slug.as_slice(), chars_of(":").as_slice(), ext.as_slice());
            append_chars(&mut id, chars_of(":").as_slice());
            append_chars(&mut id, q.as_slice());
            (id, b)
        } else {
            let (q, b) = derive_gguf_quantization_exec(f.as_slice());
            let id = concat3(slug.as_slice(), chars_of(":gguf:").as_slice(), q.as_slice());
            (id, b)
        };
        let download_url = resolve_url_exec(repo.as_slice(), f.as_slice());
        let header = if is_gguf {
            gguf_header
        } else {
            None
        };
        let (architecture, parameters, context_window) = if is_onnx {
            (chars_of("ONNX"), Vec::new(), chars_of("8k"))
        } else {
            gguf_header_exec(header)
        };
        let pipeline = match repository {
            Some(md) => match &md.pipeline_tag {
                Some(p) => to_lower(chars_of(p.as_str()).as_slice()),
                None => Vec::new(),
            },
            None => Vec::new(),
        };
        let tags: Vec<Vec<char>> = match repository {
            Some(md) => lower_all(&md.tags),
            None => Vec::new(),
        };
        let (category, has_vision, has_audio, modality) = categorize_exec(
            ext.as_slice(),
            pipeline.as_slice(),
            &tags,
        );
        let related = if is_onnx {
            related_assets(tree, filename, true)
        } else if is_split_gguf_exec(f.as_slice()) {
            related_assets(tree, filename, false)
        } else {
            Vec::new()
        };
        let assets = assets_of_exec(repo.as_slice(), f.as_slice(), &related);
        let name = replace_exec(slug.as_slice(), chars_of("-").as_slice(), chars_of(" ").as_slice());
        let upper_ext = to_upper(ext.as_slice());
        let mut description = concat3(
            chars_of("Hugging Face ").as_slice(),
            upper_ext.as_slice(),
            chars_of(" model from ").as_slice(),
        );
        append_chars(&mut description, repo.as_slice());
        let overhead: u32 = if is_onnx {
            35
        } else {
            50
        };
        proof {
            reveal_strlit("gguf");
            reveal_strlit("onnx");
            assert("onnx"@[0] != "gguf"@[0]);
            if is_onnx {
                assert(ext@ != "gguf"@);
            }
            assert(lower(Seq::<char>::empty()) =~= Seq::<char>::empty());
            assert(views(Seq::<Vec<char>>::empty()) =~= Seq::<Seq<char>>::empty());
        }
        Ok(
            ModelManifest {
                id: string_of(id.as_slice()),
                name: string_of(name.as_slice()),
                architecture: string_of(architecture.as_slice()),
                architecture_type: string_of(ext.as_slice()),
                parameters: string_of(parameters.as_slice()),
                training_tokens: String::new(),
                bit_depth_centi: bit_depth,
                ram_overhead_centi_gb: overhead,
                download_size_bytes,
                huggingface_repo: string_of(repo.as_slice()),
                huggingface_filename: string_of(basename.as_slice()),
                download_url: string_of(download_url.as_slice()),
                description: string_of(description.as_slice()),
                is_cloud_api: false,
                requires_gpu: false,
                is_free_tier: true,
                input_modality: string_of(modality.as_slice()),
                context_window: string_of(context_window.as_slice()),
                family: string_of(slug.as_slice()),
                category: string_of(category.as_slice()),
                assets,
                local_path: None,
                dna_path: None,
                has_vision,
                has_audio,
                expert_count: None,
                experts_per_token: None,
            },
        )
    }
}

pub open spec fn views_lower(v: Seq<String>) -> Seq<Seq<char>> {
    v.map_values(|s: String| lower(s@))
}

fn lower_all(v: &Vec<String>) -> (r: Vec<Vec<char>>)
    ensures
        views(r@) == views_lower(v@),
{
    let mut r: Vec<Vec<char>> = Vec::new();
    let mut i: usize = 0;
    while i < v.len()
        invariant
            i <= v@.len(),
            views(r@) == views_lower(v@).subrange(0, i as int),
        decreases v@.len() - i,
    {
        let ghost before = views(r@);
        r.push(to_lower(chars_of(v[i].as_str()).as_slice()));
        assert(views(r@) =~= before.push(lower(v@[i as int]@)));
        assert(views_lower(v@).subrange(0, i + 1) =~= views_lower(v@).subrange(0, i as int).push(
            lower(v@[i as int]@),
        ));
        i = i + 1;
    }
    assert(views_lower(v@).subrange(0, v@.len() as int) =~= views_lower(v@));
    r
}


// ---------------------------------------------------------------------------
// ONNX runtime companion files
// ---------------------------------------------------------------------------

/// Tokenizer, configuration and vocabulary files that an ONNX model needs.
pub open spec fn is_runtime_file(name: Seq<char>) -> bool {
    name == "tokenizer.json"@ || name == "tokenizer_config.json"@ || name
        == "special_tokens_map.json"@ || name == "config.json"@ || name
        == "generation_config.json"@ || name == "preprocessor_config.json"@ || name
        == "processor_config.json"@ || name == "vocab.json"@ || name == "vocab.txt"@ || name
        == "merges.txt"@ || name == "sentencepiece.bpe.model"@ || name == "spiece.model"@ || name
        == "added_tokens.json"@ || name == "chat_template.json"@
}

/// Largest companion file that is picked up (64 MiB).
pub open spec fn max_runtime_file_bytes() -> nat {
    64 * 1024 * 1024
}

pub open spec fn has_asset_named(assets: Seq<(Seq<char>, Seq<char>)>, lowered: Seq<char>) -> bool {
    exists|i: int| 0 <= i < assets.len() && lower(#[trigger] assets[i].0) == lowered
}

/// Whether a tree entry is added as a runtime file of the ONNX model `selected`.
pub open spec fn runtime_file_qualifies(
    selected: Seq<char>,
    assets: Seq<(Seq<char>, Seq<char>)>,
    entry: (Option<Seq<char>>, Option<u64>),
) -> bool {
    match entry.0 {
        None => false,
        Some(p) => p != selected && size_or_zero(entry.1) <= max_runtime_file_bytes() && match file_name(p) {
            None => false,
            Some(b) => is_runtime_file(lower(b)) && (parent_components(p) == parent_components(selected)
                || parent_components(p).len() == 0) && !has_asset_named(assets, lower(b)),
        },
    }
}

/// The assets after scanning `entries` for runtime files, in tree order.
pub open spec fn runtime_assets(
    repository: Seq<char>,
    selected: Seq<char>,
    assets: Seq<(Seq<char>, Seq<char>)>,
    entries: Seq<(Option<Seq<char>>, Option<u64>)>,
) -> Seq<(Seq<char>, Seq<char>)>
    decreases entries.len(),
{
    if entries.len() == 0 {
        assets
    } else {
        let prev = runtime_assets(repository, selected, assets, entries.drop_last());
        let e = entries.last();
        if runtime_file_qualifies(selected, prev, e) {
            prev.push((file_name(e.0->0)->0, resolve_url(repository, e.0->0)))
        } else {
            prev
        }
    }
}

fn is_runtime_file_exec(name: &[char]) -> (r: bool)
    ensures
        r == is_runtime_file(name@),
{
    chars_eq(name, chars_of("tokenizer.json").as_slice()) || chars_eq(
        name,
        chars_of("tokenizer_config.json").as_slice(),
    ) || chars_eq(name, chars_of("special_tokens_map.json").as_slice()) || chars_eq(
        name,
        chars_of("config.json").as_slice(),
    ) || chars_eq(name, chars_of("generation_config.json").as_slice()) || chars_eq(
        name,
        chars_of("preprocessor_config.json").as_slice(),
    ) || chars_eq(name, chars_of("processor_config.json").as_slice()) || chars_eq(
        name,
        chars_of("vocab.json").as_slice(),
    ) || chars_eq(name, chars_of("vocab.txt").as_slice()) || chars_eq(
        name,
        chars_of("merges.txt").as_slice(),
    ) || chars_eq(name, chars_of("sentencepiece.bpe.model").as_slice()) || chars_eq(
        name,
        chars_of("spiece.model").as_slice(),
    ) || chars_eq(name, chars_of("added_tokens.json").as_slice()) || chars_eq(
        name,
        chars_of("chat_template.json").as_slice(),
    )
}

fn has_asset_named_exec(assets: &Vec<ModelAsset>, lowered: &[char]) -> (r: bool)
    ensures
        r == has_asset_named(asset_views(assets@), lowered@),
{
    let mut i: usize = 0;
    while i < assets.len()
        invariant
            i <= assets@.len(),
            forall|k: int| 0 <= k < i ==> lower(#[trigger] asset_views(assets@)[k].0) != lowered@,
        decreases assets@.len() - i,
    {
        let l = to_lower(chars_of(assets[i].name.as_str()).as_slice());
        assert(asset_views(assets@)[i as int].0 == assets@[i as int].name@);
        if chars_eq(l.as_slice(), lowered) {
            return true;
        }
        i = i + 1;
    }
    false
}

impl HuggingFaceHub {
    /// Adds the tokenizer, configuration and vocabulary files listed in the
    /// repository tree that belong next to the ONNX model `selected_filename`.
    pub fn append_onnx_runtime_assets(
        repository_id: &str,
        selected_filename: &str,
        assets: &mut Vec<ModelAsset>,
        tree: &Vec<TreeEntry>,
    )
        ensures
            asset_views(final(assets)@) == runtime_assets(
                repository_id@,
                selected_filename@,
                asset_views(old(assets)@),
                entry_views(tree@),
            ),
    {
        let sel = chars_of(selected_filename);
        let repo = chars_of(repository_id);
        let sel_parent = parent_components_exec(sel.as_slice());
        let ghost initial = asset_views(assets@);
        let mut i: usize = 0;
        while i < tree.len()
            invariant
                i <= tree@.len(),
                sel@ == selected_filename@,
                repo@ == repository_id@,
                views(sel_parent@) == parent_components(selected_filename@),
                initial == asset_views(old(assets)@),
                asset_views(assets@) == runtime_assets(
                    repository_id@,
                    selected_filename@,
                    initial,
                    entry_views(tree@).subrange(0, i as int),
                ),
            decreases tree@.len() - i,
        {
            let ghost pre = entry_views(tree@).subrange(0, i + 1);
            assert(pre.drop_last() =~= entry_views(tree@).subrange(0, i as int));
            assert(pre.last() == tree@[i as int]@);
            let ghost prev = asset_views(assets@);
            match &tree[i].path {
                None => {},
                Some(path) => {
                    let p = chars_of(path.as_str());
                    let size: u64 = match tree[i].size {
                        Some(v) => v,
                        None => 0,
                    };
                    if !chars_eq(p.as_slice(), sel.as_slice()) && size <= 67108864 {
                        match file_name_exec(p.as_slice()) {
                            None => {},
                            Some(b) => {
                                let bl = to_lower(b.as_slice());
                                if is_runtime_file_exec(bl.as_slice()) {
                                    let pp = parent_components_exec(p.as_slice());
                                    let close = component_lists_eq(pp.as_slice(), sel_parent.as_slice())
                                        || pp.len() == 0;
                                    if close && !has_asset_named_exec(assets, bl.as_slice()) {
                                        let url = resolve_url_exec(repo.as_slice(), p.as_slice());
                                        assets.push(
                                            ModelAsset {
                                                name: string_of(b.as_slice()),
                                                url: string_of(url.as_slice()),
                                            },
                                        );
                                        assert(asset_views(assets@) =~= prev.push(
                                            (b@, resolve_url(repository_id@, p@)),
                                        ));
                                    }
                                }
                            },
                        }
                    }
                },
            }
            i = i + 1;
        }
        assert(entry_views(tree@).subrange(0, tree@.len() as int) =~= entry_views(tree@));
    }
}

// ---------------------------------------------------------------------------
// Laws of the quantization and context labels
// ---------------------------------------------------------------------------

proof fn lemma_quant_from_tokens_shape(tokens: Seq<Seq<char>>)
    ensures
        quant_from_tokens(tokens) matches Some((t, b)) ==> {
            &&& (t.len() >= 2 && t[0] == 'q' && '0' <= t[1] <= '9') ==> b == (t[1] as int - '0' as int) * 100
            &&& (tokens.contains(t) || t == seq!['f', '1', '6'] || t == seq!['f', '3', '2'])
        },
    decreases tokens.len(),
{
    if tokens.len() > 0 {
        lemma_quant_from_tokens_shape(tokens.drop_first());
        let t0 = tokens[0];
        if let Some((t, b)) = quant_from_tokens(tokens) {
            if has_prefix(t0, "tq"@) {
                reveal_strlit("tq");
                assert(t == t0);
                assert(t0.subrange(0, 2)[0] == t0[0]);
                assert("tq"@[0] == 't');
                assert(t0[0] == 't');
            } else if t0 == seq!['f', '1', '6'] || t0 == "fp16"@ {
            } else if t0 == seq!['f', '3', '2'] || t0 == "fp32"@ {
            } else if t0.len() >= 2 && t0[0] == 'q' && is_digit(t0[1]) {
                assert(tokens[0] == t);
            } else {
                let rest = tokens.drop_first();
                if rest.contains(t) {
                    let j = choose|j: int| 0 <= j < rest.len() && rest[j] == t;
                    assert(tokens[j + 1] == t);
                }
            }
        }
    }
}

/// The bit depth of a GGUF file whose quantization label is `q` followed by
/// a digit `d` (such as `q8_0` or `q4_k_m`) is `d` bits, in hundredths of a
/// bit; and every label is a single name token, holding neither `-` nor `.`.
pub proof fn law_gguf_q_label_gives_bit_depth(filename: Seq<char>)
    ensures
        ({
            let (label, depth) = gguf_quantization(filename);
            &&& (label.len() >= 2 && label[0] == 'q' && '0' <= label[1] <= '9') ==> depth == (label[1] as int
                - '0' as int) * 100
            &&& forall|i: int| 0 <= i < label.len() ==> #[trigger] label[i] != '-' && label[i] != '.'
        }),
{
    let l = lower(strip_suffixes(base_name(filename), ".gguf"@));
    let tokens = split_any(l, seq!['-', '.']);
    lemma_quant_from_tokens_shape(tokens);
    crate::text::lemma_split_pieces_free(l, seq!['-', '.']);
    reveal_strlit("i2_s");
    reveal_strlit("ternary");
    reveal_strlit("gguf");
    let (label, depth) = gguf_quantization(filename);
    assert(seq!['-', '.'].contains('-') && seq!['-', '.'].contains('.')) by {
        assert(seq!['-', '.'][0] == '-');
        assert(seq!['-', '.'][1] == '.');
    }
    if !contains_seq(l, "i2_s"@) && !contains_seq(l, "ternary"@) {
        if let Some((t, b)) = quant_from_tokens(tokens) {
            if tokens.contains(t) {
                let k = choose|k: int| 0 <= k < tokens.len() && tokens[k] == t;
                assert forall|i: int| 0 <= i < label.len() implies #[trigger] label[i] != '-' && label[i] != '.' by {
                    assert(label[i] == tokens[k][i]);
                }
            }
        }
    }
}

/// The context window of a GGUF model whose header names architecture `A`
/// and holds `A.context_length = n` is `n` written in thousands (`n / 1024`
/// followed by `k`) from 1024 on, else `n` itself, whatever other
/// architectures' keys the header holds.
pub proof fn law_context_window_from_architecture_key(
    header: Seq<(Seq<char>, Seq<char>)>,
    arch: Seq<char>,
    n: nat,
)
    requires
        meta_get(header, "general.architecture"@) == Some(arch),
        meta_get(header, arch + ".context_length"@) == Some(decimal(n)),
        n <= u64::MAX,
    ensures
        gguf_context(Some(header)) == (if n >= 1024 {
            decimal(n / 1024) + "k"@
        } else {
            decimal(n)
        }),
{
    crate::text::law_decimal_round_trip(n, u64::MAX as nat);
}

// ---------------------------------------------------------------------------
// Laws of the variant listing
// ---------------------------------------------------------------------------

proof fn lemma_raw_variants_contains(
    tree: Seq<(Seq<char>, Option<u64>)>,
    items: Seq<(Seq<char>, Option<u64>)>,
    j: int,
)
    requires
        0 <= j < items.len(),
        is_model_file(items[j].0),
    ensures
        raw_variants(tree, items).contains(
            (items[j].0, (size_or_zero(items[j].1) + size_total(companions(tree, items[j].0))) as u128),
        ),
    decreases items.len(),
{
    let e = (items[j].0, (size_or_zero(items[j].1) + size_total(companions(tree, items[j].0))) as u128);
    let rest = raw_variants(tree, items.drop_last());
    if j < items.len() - 1 {
        assert(items.drop_last()[j] == items[j]);
        lemma_raw_variants_contains(tree, items.drop_last(), j);
        let k = choose|k: int| 0 <= k < rest.len() && rest[k] == e;
        assert(raw_variants(tree, items)[k] == e);
    } else {
        let all = raw_variants(tree, items);
        assert(all[all.len() - 1] == e);
    }
}

proof fn lemma_primary_variants_contains(v: Seq<(Seq<char>, u128)>, e: (Seq<char>, u128))
    requires
        v.contains(e),
        !is_non_primary_shard(e.0),
    ensures
        primary_variants(v).contains(e),
    decreases v.len(),
{
    if v.last() == e {
        let p = primary_variants(v);
        assert(p[p.len() - 1] == e);
    } else {
        let k = choose|k: int| 0 <= k < v.len() && v[k] == e;
        assert(v.drop_last()[k] == e);
        lemma_primary_variants_contains(v.drop_last(), e);
        let q = primary_variants(v.drop_last());
        let k2 = choose|k2: int| 0 <= k2 < q.len() && q[k2] == e;
        if !is_non_primary_shard(v.last().0) {
            assert(primary_variants(v)[k2] == e);
        }
    }
}

proof fn lemma_onnx_not_gguf(l: Seq<char>)
    requires
        has_suffix(l, ".onnx"@),
    ensures
        !has_suffix(l, ".gguf"@),
{
    reveal_strlit(".onnx");
    reveal_strlit(".gguf");
    assert(l.subrange(l.len() - 5, l.len() as int)[4] == l[l.len() - 1]);
    assert(".onnx"@[4] == 'x');
    assert(".gguf"@[4] == 'f');
}

/// The size of each variant is what its download costs: an ONNX model
/// counts its own size plus that of every external-data file the tree holds
/// for it (the files `related_onnx_assets` returns), the first part of a
/// split GGUF model counts the sizes of all its other parts (those
/// `related_gguf_shards` returns), and a single GGUF file counts only itself.
pub proof fn law_variant_sizes_count_companions(tree: Seq<(Seq<char>, Option<u64>)>, j: int)
    requires
        0 <= j < tree.len(),
    ensures
        ({
            let path = tree[j].0;
            let own = size_or_zero(tree[j].1);
            let listed = primary_variants(raw_variants(tree, tree));
            &&& has_suffix(lower(path), ".onnx"@) ==> listed.contains(
                (path, (own + size_total(related_items(tree, path, true))) as u128),
            )
            &&& (is_split_gguf(path) && !is_non_primary_shard(path)) ==> listed.contains(
                (path, (own + size_total(related_items(tree, path, false))) as u128),
            )
            &&& (has_suffix(lower(path), ".gguf"@) && !is_split_gguf(path)) ==> listed.contains(
                (path, own as u128),
            )
        }),
{
    let path = tree[j].0;
    let l = lower(path);
    if has_suffix(l, ".onnx"@) {
        lemma_onnx_not_gguf(l);
        assert(is_model_file(path));
        lemma_raw_variants_contains(tree, tree, j);
        lemma_primary_variants_contains(
            raw_variants(tree, tree),
            (path, (size_or_zero(tree[j].1) + size_total(companions(tree, path))) as u128),
        );
    }
    if is_split_gguf(path) && !is_non_primary_shard(path) {
        if has_suffix(l, ".onnx"@) {
            lemma_onnx_not_gguf(l);
        }
        assert(is_model_file(path));
        lemma_raw_variants_contains(tree, tree, j);
        lemma_primary_variants_contains(
            raw_variants(tree, tree),
            (path, (size_or_zero(tree[j].1) + size_total(companions(tree, path))) as u128),
        );
    }
    if has_suffix(l, ".gguf"@) && !is_split_gguf(path) {
        if has_suffix(l, ".onnx"@) {
            lemma_onnx_not_gguf(l);
        }
        assert(is_model_file(path));
        assert(companions(tree, path) =~= Seq::<(Seq<char>, Option<u64>)>::empty());
        assert(size_total(companions(tree, path)) == 0);
        assert(!is_non_primary_shard(path));
        lemma_raw_variants_contains(tree, tree, j);
        lemma_primary_variants_contains(
            raw_variants(tree, tree),
            (path, (size_or_zero(tree[j].1) + size_total(companions(tree, path))) as u128),
        );
    }
}

} // verus!
