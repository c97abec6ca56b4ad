//! Lookups of the inference dispatcher: the native libraries it loads, where
//! model weights are searched, and the model configured for a task.
use vstd::prelude::*;
use crate::drivers::{dynamic_library_extension, library_extension_of};
use crate::json::{json_document_parses, json_member_string, member_string};
use crate::kernel_loader::{
    file_with_prefix, first_found_exec, first_found_from, probe_paths, search_paths_exec, HostOs,
};
use crate::model_store::{cached_path, entry_infos, model_dir, sanitized_exec, DirEntryInfo};
use crate::paths::{extension, extension_exec, join, join_exec};
use crate::text::{
    after_last_char_exec, chars_eq, chars_of, concat, concat3, eq_ignore_ascii_case, eq_ignore_case,
    lower, string_of,
    string_views, strings_of, to_lower, views,
};

verus! {

/// The shared-library extension of the host.
pub fn library_extension(host: HostOs) -> (r: String)
    ensures
        r@ == library_extension_of(host),
{
    dynamic_library_extension(host)
}

/// Name prefixes of a dispatcher library: Windows has no `lib` forms.
pub open spec fn library_prefixes(host: HostOs) -> Seq<Seq<char>> {
    if host == HostOs::Windows {
        seq!["bitshit-"@, "bitshit_"@, "cluaiz-"@, "cluaiz_"@]
    } else {
        seq!["bitshit-"@, "libbitshit_"@, "libbitshit-"@, "cluaiz-"@, "libcluaiz_"@, "libcluaiz-"@]
    }
}

/// The accepted file names of a dispatcher library, in search order.
pub open spec fn library_file_names(kind: Seq<char>, host: HostOs) -> Seq<Seq<char>> {
    library_prefixes(host).map_values(
        |p: Seq<char>| file_with_prefix(p, kind, library_extension_of(host)),
    )
}

fn library_names_exec(kind: &str, host: HostOs) -> (r: Vec<Vec<char>>)
    ensures
        views(r@) == library_file_names(kind@, host),
{
    let mut prefixes: Vec<Vec<char>> = Vec::new();
    if host == HostOs::Windows {
        prefixes.push(chars_of("bitshit-"));
        prefixes.push(chars_of("bitshit_"));
        prefixes.push(chars_of("cluaiz-"));
        prefixes.push(chars_of("cluaiz_"));
    } else {
        prefixes.push(chars_of("bitshit-"));
        prefixes.push(chars_of("libbitshit_"));
        prefixes.push(chars_of("libbitshit-"));
        prefixes.push(chars_of("cluaiz-"));
        prefixes.push(chars_of("libcluaiz_"));
        prefixes.push(chars_of("libcluaiz-"));
    }
    assert(views(prefixes@) =~= library_prefixes(host));
    let ext_s = dynamic_library_extension(host);
    let ext = chars_of(ext_s.as_str());
    let k = chars_of(kind);
    let dot = vec!['.'];
    assert(dot@ =~= seq!['.']);
    let mut r: Vec<Vec<char>> = Vec::new();
    let mut i: usize = 0;
    while i < prefixes.len()
        invariant
            i <= prefixes@.len(),
            views(prefixes@) == library_prefixes(host),
            ext@ == library_extension_of(host),
            k@ == kind@,
            dot@ == seq!['.'],
            r@.len() == i,
            forall|j: int|
                0 <= j < i ==> #[trigger] r@[j]@ == file_with_prefix(
                    library_prefixes(host)[j],
                    kind@,
                    library_extension_of(host),
                ),
        decreases prefixes@.len() - i,
    {
        assert(views(prefixes@)[i as int] == prefixes@[i as int]@);
        let a = concat3(prefixes[i].as_slice(), k.as_slice(), dot.as_slice());
        r.push(concat(a.as_slice(), ext.as_slice()));
        i = i + 1;
    }
    assert(views(r@) =~= library_file_names(kind@, host));
    r
}

/// The accepted file names of the dispatcher library `kind`.
pub fn library_names(kind: &str, host: HostOs) -> (r: Vec<String>)
    ensures
        string_views(r@) == library_file_names(kind@, host),
{
    let names = library_names_exec(kind, host);
    strings_of(&names)
}

/// Every location searched for the dispatcher library `kind`, in order.
pub fn library_search_paths(kind: &str, host: HostOs, current_dir: &str, installed_dir: &str) -> (r:
    Vec<String>)
    ensures
        string_views(r@) == probe_paths(current_dir@, installed_dir@, library_file_names(kind@, host)),
{
    let names = library_names_exec(kind, host);
    let paths = search_paths_exec(chars_of(current_dir).as_slice(), chars_of(installed_dir).as_slice(), &names);
    strings_of(&paths)
}

/// The dispatcher library `kind`: the first searched path that is a file
/// (`is_file[i]` for the `i`-th path of [`library_search_paths`]), or the
/// error naming the installed directory.
pub fn resolve_library(
    kind: &str,
    host: HostOs,
    current_dir: &str,
    installed_dir: &str,
    is_file: &Vec<bool>,
) -> (r: Result<String, String>)
    ensures
        match first_found_from(
            probe_paths(current_dir@, installed_dir@, library_file_names(kind@, host)),
            is_file@,
            0,
        ) {
            Some(p) => r matches Ok(s) && s@ == p,
            None => r matches Err(e) && e@ == "1BitShit CPU "@ + kind@ + " library was not found under "@
                + installed_dir@ + " or target/{release,debug}"@,
        },
{
    let names = library_names_exec(kind, host);
    let paths = search_paths_exec(chars_of(current_dir).as_slice(), chars_of(installed_dir).as_slice(), &names);
    match first_found_exec(&paths, is_file) {
        Some(i) => Ok(string_of(paths[i].as_slice())),
        None => {
            let a = concat3(
                chars_of("1BitShit CPU ").as_slice(),
                chars_of(kind).as_slice(),
                chars_of(" library was not found under ").as_slice(),
            );
            let b = concat3(
                a.as_slice(),
                chars_of(installed_dir).as_slice(),
                chars_of(" or target/{release,debug}").as_slice(),
            );
            Err(string_of(b.as_slice()))
        },
    }
}

/// The model categories searched for weights, in order.
pub open spec fn model_categories() -> Seq<Seq<char>> {
    seq!["chat"@, "embedding"@, "vision"@, "audio"@, "code"@, "multimodal"@]
}

/// The directories searched first for a model's weights: the model's store
/// directory in each category.
pub open spec fn search_dirs(root: Seq<char>, model_id: Seq<char>) -> Seq<Seq<char>> {
    model_categories().map_values(|c: Seq<char>| model_dir(root, c, model_id))
}

/// The directories searched first for a model's weights: its canonical
/// directory (the one the store downloads into) in each category.
pub fn model_search_dirs(models_root: &str, model_id: &str) -> (r: Vec<String>)
    ensures
        string_views(r@) == search_dirs(models_root@, model_id@),
{
    let cats = vec![
        chars_of("chat"),
        chars_of("embedding"),
        chars_of("vision"),
        chars_of("audio"),
        chars_of("code"),
        chars_of("multimodal"),
    ];
    assert(views(cats@) =~= model_categories());
    let root = chars_of(models_root);
    let id = chars_of(model_id);
    let last = after_last_char_exec(id.as_slice(), '/');
    let name = sanitized_exec(last.as_slice());
    let mut r: Vec<Vec<char>> = Vec::new();
    let mut i: usize = 0;
    while i < cats.len()
        invariant
            i <= cats@.len(),
            views(cats@) == model_categories(),
            root@ == models_root@,
            name@ == crate::model_store::model_dir_name(model_id@),
            r@.len() == i,
            forall|j: int|
                0 <= j < i ==> #[trigger] r@[j]@ == model_dir(
                    models_root@,
                    model_categories()[j],
                    model_id@,
                ),
        decreases cats@.len() - i,
    {
        assert(views(cats@)[i as int] == cats@[i as int]@);
        let d = join_exec(root.as_slice(), cats[i].as_slice());
        r.push(join_exec(d.as_slice(), name.as_slice()));
        i = i + 1;
    }
    assert(views(r@) =~= search_dirs(models_root@, model_id@));
    strings_of(&r)
}

/// A listed file whose lower-cased extension is accepted.
pub open spec fn accepted_weight(dir: Seq<char>, entry: (Seq<char>, bool), accepted: Seq<Seq<char>>) -> bool {
    entry.1 && match extension(join(dir, entry.0)) {
        Some(e) => accepted.contains(lower(e)),
        None => false,
    }
}

/// The path of the first accepted weight file, in listing order.
pub open spec fn first_accepted(dir: Seq<char>, entries: Seq<(Seq<char>, bool)>, accepted: Seq<Seq<char>>) -> Option<Seq<char>>
    decreases entries.len(),
{
    if entries.len() == 0 {
        None
    } else if accepted_weight(dir, entries[0], accepted) {
        Some(join(dir, entries[0].0))
    } else {
        first_accepted(dir, entries.drop_first(), accepted)
    }
}

fn accepted_exec(accepted: &Vec<String>, e: &[char]) -> (r: bool)
    ensures
        r == string_views(accepted@).contains(e@),
{
    let ghost all = string_views(accepted@);
    let mut i: usize = 0;
    while i < accepted.len()
        invariant
            i <= accepted@.len(),
            all == string_views(accepted@),
            forall|k: int| 0 <= k < i ==> all[k] != e@,
        decreases accepted@.len() - i,
    {
        if chars_eq(chars_of(accepted[i].as_str()).as_slice(), e) {
            assert(all[i as int] == e@);
            return true;
        }
        i = i + 1;
    }
    false
}

/// The first file of a directory listing whose extension, lower-cased, is
/// one of `accepted_extensions`.
pub fn find_weight_in_listing(
    directory: &str,
    listing: &Vec<DirEntryInfo>,
    accepted_extensions: &Vec<String>,
) -> (r: Option<String>)
    ensures
        match r {
            Some(p) => first_accepted(directory@, entry_infos(listing@), string_views(accepted_extensions@)) == Some(p@),
            None => first_accepted(directory@, entry_infos(listing@), string_views(accepted_extensions@)) is None,
        },
{
    let ghost all = entry_infos(listing@);
    let ghost acc = string_views(accepted_extensions@);
    let dir = chars_of(directory);
    let mut i: usize = 0;
    assert(all.subrange(0, all.len() as int) =~= all);
    while i < listing.len()
        invariant
            i <= listing@.len(),
            all == entry_infos(listing@),
            acc == string_views(accepted_extensions@),
            dir@ == directory@,
            first_accepted(dir@, all, acc) == first_accepted(dir@, all.subrange(i as int, all.len() as int), acc),
        decreases listing@.len() - i,
    {
        let ghost rest = all.subrange(i as int, all.len() as int);
        assert(rest[0] == listing@[i as int]@);
        assert(rest.drop_first() =~= all.subrange(i + 1, all.len() as int));
        let p = join_exec(dir.as_slice(), chars_of(listing[i].name.as_str()).as_slice());
        if listing[i].is_file {
            match extension_exec(p.as_slice()) {
                Some(e) => {
                    let l = to_lower(e.as_slice());
                    if accepted_exec(accepted_extensions, l.as_slice()) {
                        return Some(string_of(p.as_slice()));
                    }
                },
                None => {},
            }
        }
        i = i + 1;
    }
    None
}

/// Whether a directory found while searching the model store is the
/// model's directory (letter case aside).
pub fn directory_matches(name: &str, directory_name: &str) -> (r: bool)
    ensures
        r == eq_ignore_case(name@, directory_name@),
{
    eq_ignore_ascii_case(chars_of(name).as_slice(), chars_of(directory_name).as_slice())
}

/// The model configured for a task kind in the permission file (its text,
/// or `None` when it could not be read): the string member `text` of the
/// object member `<kind>`, when the file parses.
pub fn configured_model_id(permission_text: Option<&str>, kind: &str) -> (r: Option<String>)
    ensures
        match permission_text {
            Some(t) => if json_document_parses(t@) {
                match json_member_string(t@, seq![kind@, "text"@]) {
                    Some(s) => r matches Some(x) && x@ == s,
                    None => r is None,
                }
            } else {
                r is None
            },
            None => r is None,
        },
{
    let t = match permission_text {
        Some(t) => t,
        None => {
            return None;
        },
    };
    let mut tokens: Vec<String> = Vec::new();
    tokens.push(string_of(chars_of(kind).as_slice()));
    tokens.push(string_of(chars_of("text").as_slice()));
    assert(string_views(tokens@) =~= seq![kind@, "text"@]);
    match member_string(t, &tokens) {
        Ok(o) => o,
        Err(_) => None,
    }
}

/// The message streamed when no chat model is configured.
pub fn no_chat_model_message() -> (r: String)
    ensures
        r@ == "Error: no active chat model is configured. Use 'bitshit model set-chat <id>'."@,
{
    string_of(
        chars_of("Error: no active chat model is configured. Use 'bitshit model set-chat <id>'.").as_slice(),
    )
}

/// The message streamed when the configured chat model has no weights in
/// the model store.
pub fn missing_model_message(model_id: &str) -> (r: String)
    ensures
        r@ == "Error: active model '"@ + model_id@ + "' was not found in the visible model store."@,
{
    string_of(
        concat3(
            chars_of("Error: active model '").as_slice(),
            chars_of(model_id).as_slice(),
            chars_of("' was not found in the visible model store.").as_slice(),
        ).as_slice(),
    )
}

/// The weight extensions a chat model is loaded from.
pub fn chat_weight_extensions() -> (r: Vec<String>)
    ensures
        string_views(r@) == seq!["gguf"@, "bin"@],
{
    let mut r: Vec<String> = Vec::new();
    r.push(string_of(chars_of("gguf").as_slice()));
    r.push(string_of(chars_of("bin").as_slice()));
    assert(string_views(r@) =~= seq!["gguf"@, "bin"@]);
    r
}

/// Whether the loaded engine must be replaced: no engine is loaded, its
/// instance is null, or it was loaded from another model path.
pub open spec fn engine_needs_reload(cached: Option<(Seq<char>, bool)>, model_path: Seq<char>) -> bool {
    match cached {
        Some((p, live)) => !(crate::paths::components(p) == crate::paths::components(model_path) && live),
        None => true,
    }
}

/// Whether the loaded engine (its model path, and whether its instance is
/// live) must be replaced to serve `model_path`.
pub fn needs_reload(cached_path: Option<&str>, instance_live: bool, model_path: &str) -> (r: bool)
    ensures
        r == engine_needs_reload(
            match cached_path {
                Some(p) => Some((p@, instance_live)),
                None => None,
            },
            model_path@,
        ),
{
    match cached_path {
        Some(p) => {
            let a = crate::paths::components_exec(chars_of(p).as_slice());
            let b = crate::paths::components_exec(chars_of(model_path).as_slice());
            !(crate::paths::component_lists_eq(a.as_slice(), b.as_slice()) && instance_live)
        },
        None => true,
    }
}

/// A file found as chat weights (`gguf` or `bin`) is never an ONNX model, so
/// a GGUF model is never opened by the ONNX runtime.
pub proof fn law_chat_weights_are_never_onnx(dir: Seq<char>, entry: (Seq<char>, bool))
    ensures
        accepted_weight(dir, entry, seq!["gguf"@, "bin"@]) ==> match extension(join(dir, entry.0)) {
            Some(e) => lower(e) != "onnx"@,
            None => false,
        },
{
    reveal_strlit("gguf");
    reveal_strlit("bin");
    reveal_strlit("onnx");
    if accepted_weight(dir, entry, seq!["gguf"@, "bin"@]) {
        let e = extension(join(dir, entry.0))->0;
        let l = lower(e);
        assert(seq!["gguf"@, "bin"@].contains(l));
        if l == "onnx"@ {
            let j = choose|j: int| 0 <= j < 2 && seq!["gguf"@, "bin"@][j] == l;
            if j == 0 {
                assert(l[0] == 'o');
                assert(seq!["gguf"@, "bin"@][0][0] == 'g');
            } else {
                assert(l.len() == 4);
            }
        }
    }
}


/// One canonical directory per model: a download stores its weight file
/// directly in `model_dir` (under the name `weight_file_name` accepts), the
/// cache lookup finds exactly that file there, the purge removes that
/// directory, and the loader searches it for every model category.
pub proof fn law_store_directory_is_canonical(
    root: Seq<char>,
    category: Seq<char>,
    model_id: Seq<char>,
    filename: Seq<char>,
    listing: Option<Seq<(Seq<char>, bool)>>,
)
    ensures
        crate::catalog::stored_file_name(filename) matches Some(n) ==> cached_path(
            model_dir(root, category, model_id),
            filename,
            true,
            listing,
        ) == Some(join(model_dir(root, category, model_id), n)),
        model_categories().contains(category) ==> search_dirs(root, model_id).contains(
            model_dir(root, category, model_id),
        ),
{
    if model_categories().contains(category) {
        let j = choose|j: int| 0 <= j < model_categories().len() && model_categories()[j] == category;
        assert(search_dirs(root, model_id)[j] == model_dir(root, category, model_id));
    }
}

/// Once a model directory has been removed, its weight file no longer
/// exists and its listing cannot be read, so no file of the model is cached.
pub proof fn law_purged_model_is_not_cached(root: Seq<char>, category: Seq<char>, model_id: Seq<char>, filename: Seq<char>)
    ensures
        cached_path(model_dir(root, category, model_id), filename, false, None) is None,
{
}

} // verus!
