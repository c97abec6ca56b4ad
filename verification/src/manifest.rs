//! Model manifests, companion assets and Hugging Face repository listings.
use vstd::prelude::*;
use crate::text::{chars_of, string_of};

verus! {

/// A file that is downloaded next to the model weights.
#[derive(Clone)]
pub struct ModelAsset {
    pub name: String,
    pub url: String,
}

impl View for ModelAsset {
    type V = (Seq<char>, Seq<char>);

    open spec fn view(&self) -> (Seq<char>, Seq<char>) {
        (self.name@, self.url@)
    }
}

/// Description of a model that the runtime can download and load.
///
/// Bit depths are kept in hundredths of a bit (1.58 bits is `158`), and the
/// memory needed beyond the download size in hundredths of a GiB.
#[derive(Clone)]
pub struct ModelManifest {
    pub id: String,
    pub name: String,
    pub architecture: String,
    pub architecture_type: String,
    pub parameters: String,
    pub training_tokens: String,
    pub bit_depth_centi: u32,
    pub ram_overhead_centi_gb: u32,
    pub download_size_bytes: u128,
    pub huggingface_repo: String,
    pub huggingface_filename: String,
    pub download_url: String,
    pub description: String,
    pub is_cloud_api: bool,
    pub requires_gpu: bool,
    pub is_free_tier: bool,
    pub input_modality: String,
    pub context_window: String,
    pub family: String,
    pub category: String,
    pub assets: Vec<ModelAsset>,
    pub local_path: Option<String>,
    pub dna_path: Option<String>,
    pub has_vision: bool,
    pub has_audio: bool,
    pub expert_count: Option<u32>,
    pub experts_per_token: Option<u32>,
}

pub open spec fn asset_views(v: Seq<ModelAsset>) -> Seq<(Seq<char>, Seq<char>)> {
    v.map_values(|a: ModelAsset| a@)
}

/// One entry of a Hugging Face repository tree listing.
pub struct TreeItem {
    pub path: String,
    pub size: Option<u64>,
}

impl View for TreeItem {
    type V = (Seq<char>, Option<u64>);

    open spec fn view(&self) -> (Seq<char>, Option<u64>) {
        (self.path@, self.size)
    }
}

pub open spec fn tree_views(v: Seq<TreeItem>) -> Seq<(Seq<char>, Option<u64>)> {
    v.map_values(|t: TreeItem| t@)
}

/// One entry of an untyped tree listing, whose path may be missing.
pub struct TreeEntry {
    pub path: Option<String>,
    pub size: Option<u64>,
}

pub open spec fn opt_view(o: Option<String>) -> Option<Seq<char>> {
    match o {
        Some(s) => Some(s@),
        None => None,
    }
}

impl View for TreeEntry {
    type V = (Option<Seq<char>>, Option<u64>);

    open spec fn view(&self) -> (Option<Seq<char>>, Option<u64>) {
        (opt_view(self.path), self.size)
    }
}

pub open spec fn entry_views(v: Seq<TreeEntry>) -> Seq<(Option<Seq<char>>, Option<u64>)> {
    v.map_values(|t: TreeEntry| t@)
}

/// A downloadable model file of a repository with its total size in bytes,
/// companion files included.
pub struct HfVariant {
    pub filename: String,
    pub size_bytes: u128,
}

impl View for HfVariant {
    type V = (Seq<char>, u128);

    open spec fn view(&self) -> (Seq<char>, u128) {
        (self.filename@, self.size_bytes)
    }
}

pub open spec fn variant_views(v: Seq<HfVariant>) -> Seq<(Seq<char>, u128)> {
    v.map_values(|t: HfVariant| t@)
}

/// A fresh copy of a string.
pub fn copy_string(s: &String) -> (r: String)
    ensures
        r@ == s@,
{
    let c = chars_of(s.as_str());
    string_of(c.as_slice())
}

pub fn copy_tree_item(t: &TreeItem) -> (r: TreeItem)
    ensures
        r@ == t@,
{
    TreeItem { path: copy_string(&t.path), size: t.size }
}

} // verus!
