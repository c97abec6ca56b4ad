//! Unix path semantics (`std::path`) over character sequences.
//!
//! A path is seen through its components: an optional leading root (`/`) or
//! current-directory (`.`) marker followed by the normal components (empty
//! segments and interior `.` segments are not components).
use vstd::prelude::*;
use crate::text::{
    append_chars, chars_eq, chars_of, concat, concat3, has_prefix, lemma_rfind_before_props,
    occurs_at, rfind, rfind_exec, slice_to_vec, split_char, split_char_exec, starts_with,
    string_of, to_vec, views,
};

verus! {

/// `PathBuf::join` / `PathBuf::push`: an absolute `name` replaces the base,
/// otherwise a separator is inserted when the base is non-empty and does not
/// already end with one.
pub open spec fn join(base: Seq<char>, name: Seq<char>) -> Seq<char> {
    if name.len() > 0 && name[0] == '/' {
        name
    } else if base.len() == 0 {
        name
    } else if base.last() == '/' {
        base + name
    } else {
        base + seq!['/'] + name
    }
}

pub fn join_exec(base: &[char], name: &[char]) -> (r: Vec<char>)
    ensures
        r@ == join(base@, name@),
{
    if name.len() > 0 && name[0] == '/' {
        to_vec(name)
    } else if base.len() == 0 {
        to_vec(name)
    } else if base[base.len() - 1] == '/' {
        concat(base, name)
    } else {
        let sep = vec!['/'];
        assert(sep@ =~= seq!['/']);
        concat3(base, sep.as_slice(), name)
    }
}

/// Joins a string path with a string name.
pub fn join_str(base: &str, name: &str) -> (r: String)
    ensures
        r@ == join(base@, name@),
{
    let b = chars_of(base);
    let n = chars_of(name);
    let j = join_exec(b.as_slice(), n.as_slice());
    string_of(j.as_slice())
}

/// Marker component of an absolute path.
pub open spec fn root_marker() -> Seq<char> {
    seq!['/']
}

/// Marker component of a path that starts with the current directory.
pub open spec fn cur_marker() -> Seq<char> {
    seq!['.']
}

pub open spec fn parent_marker() -> Seq<char> {
    seq!['.', '.']
}

/// A segment between separators that forms a normal or parent component.
pub open spec fn is_component_segment(seg: Seq<char>) -> bool {
    seg.len() > 0 && seg != cur_marker()
}

pub open spec fn component_segments(segs: Seq<Seq<char>>) -> Seq<Seq<char>>
    decreases segs.len(),
{
    if segs.len() == 0 {
        Seq::empty()
    } else if is_component_segment(segs.last()) {
        component_segments(segs.drop_last()).push(segs.last())
    } else {
        component_segments(segs.drop_last())
    }
}

pub open spec fn leading_marker(p: Seq<char>) -> Seq<Seq<char>> {
    if p.len() > 0 && p[0] == '/' {
        seq![root_marker()]
    } else if p == cur_marker() || has_prefix(p, seq!['.', '/']) {
        seq![cur_marker()]
    } else {
        Seq::empty()
    }
}

/// `Path::components`: the leading marker (if any) followed by the components.
pub open spec fn components(p: Seq<char>) -> Seq<Seq<char>> {
    leading_marker(p) + component_segments(split_char(p, '/'))
}

/// `Path::file_name`.
pub open spec fn file_name(p: Seq<char>) -> Option<Seq<char>> {
    let c = components(p);
    if c.len() > 0 && c.last() != root_marker() && c.last() != cur_marker() && c.last()
        != parent_marker() {
        Some(c.last())
    } else {
        None
    }
}

/// Components of `Path::parent(p).unwrap_or("")`.
pub open spec fn parent_components(p: Seq<char>) -> Seq<Seq<char>> {
    let c = components(p);
    if c.len() > 0 && c.last() != root_marker() {
        c.drop_last()
    } else {
        Seq::empty()
    }
}

/// The file name of `p`, or `p` itself when it has none
/// (`Path::new(p).file_name().and_then(to_str).unwrap_or(p)`).
pub open spec fn base_name(p: Seq<char>) -> Seq<char> {
    match file_name(p) {
        Some(n) => n,
        None => p,
    }
}

/// `Path::extension` of a single file name.
pub open spec fn name_extension(name: Seq<char>) -> Option<Seq<char>> {
    if name == parent_marker() {
        None
    } else {
        match rfind(name, seq!['.']) {
            Some(i) => if i == 0 {
                None
            } else {
                Some(name.subrange(i + 1, name.len() as int))
            },
            None => None,
        }
    }
}

/// `Path::extension`: the extension of the file name.
pub open spec fn extension(p: Seq<char>) -> Option<Seq<char>> {
    match file_name(p) {
        Some(n) => name_extension(n),
        None => None,
    }
}

/// Joins normal components with `/`.
pub open spec fn join_components(c: Seq<Seq<char>>) -> Seq<char>
    decreases c.len(),
{
    if c.len() == 0 {
        Seq::empty()
    } else if c.len() == 1 {
        c[0]
    } else {
        join_components(c.drop_last()) + seq!['/'] + c.last()
    }
}

pub open spec fn is_prefix_components(a: Seq<Seq<char>>, b: Seq<Seq<char>>) -> bool {
    a.len() <= b.len() && b.subrange(0, a.len() as int) == a
}

/// `Path::strip_prefix(base).map(to_string_lossy).unwrap_or(p)`, with the
/// remainder rebuilt from its components.
pub open spec fn relative_to(p: Seq<char>, base: Seq<Seq<char>>) -> Seq<char> {
    let c = components(p);
    if is_prefix_components(base, c) {
        join_components(c.subrange(base.len() as int, c.len() as int))
    } else {
        p
    }
}

pub fn components_exec(p: &[char]) -> (r: Vec<Vec<char>>)
    ensures
        views(r@) == components(p@),
{
    let segs = split_char_exec(p, '/');
    let mut out: Vec<Vec<char>> = Vec::new();
    let dot_slash = vec!['.', '/'];
    assert(dot_slash@ =~= seq!['.', '/']);
    if p.len() > 0 && p[0] == '/' {
        let m = vec!['/'];
        assert(m@ =~= root_marker());
        out.push(m);
    } else if (p.len() == 1 && p[0] == '.') || starts_with(p, dot_slash.as_slice()) {
        let m = vec!['.'];
        assert(m@ =~= cur_marker());
        proof {
            if p@.len() == 1 && p@[0] == '.' {
                assert(p@ =~= cur_marker());
            }
        }
        out.push(m);
    } else {
        proof {
            if p@ == cur_marker() {
                assert(p@[0] == '.');
            }
        }
    }
    let ghost lead = views(out@);
    assert(lead =~= leading_marker(p@));
    let mut i: usize = 0;
    while i < segs.len()
        invariant
            i <= segs@.len(),
            views(segs@) == split_char(p@, '/'),
            views(out@) == lead + component_segments(views(segs@).subrange(0, i as int)),
        decreases segs@.len() - i,
    {
        let ghost pre = views(segs@).subrange(0, i + 1);
        assert(pre.drop_last() =~= views(segs@).subrange(0, i as int));
        assert(pre.last() == segs@[i as int]@);
        let seg = &segs[i];
        let keep = seg.len() > 0 && !(seg.len() == 1 && seg[0] == '.');
        proof {
            if seg@.len() == 1 && seg@[0] == '.' {
                assert(seg@ =~= cur_marker());
            }
            if seg@ == cur_marker() {
                assert(seg@[0] == '.');
            }
        }
        if keep {
            let ghost before = views(out@);
            out.push(to_vec(seg.as_slice()));
            assert(views(out@) =~= before.push(seg@));
        }
        i = i + 1;
    }
    assert(views(segs@).subrange(0, segs@.len() as int) =~= views(segs@));
    out
}

pub fn is_marker_or_parent(c: &[char]) -> (r: bool)
    ensures
        r == (c@ == root_marker() || c@ == cur_marker() || c@ == parent_marker()),
{
    let r = (c.len() == 1 && (c[0] == '/' || c[0] == '.')) || (c.len() == 2 && c[0] == '.'
        && c[1] == '.');
    proof {
        if c@.len() == 1 && c@[0] == '/' {
            assert(c@ =~= root_marker());
        }
        if c@.len() == 1 && c@[0] == '.' {
            assert(c@ =~= cur_marker());
        }
        if c@.len() == 2 && c@[0] == '.' && c@[1] == '.' {
            assert(c@ =~= parent_marker());
        }
        if c@ == root_marker() {
            assert(c@[0] == '/');
        }
        if c@ == cur_marker() {
            assert(c@[0] == '.');
        }
        if c@ == parent_marker() {
            assert(c@[0] == '.' && c@[1] == '.');
        }
    }
    r
}

pub fn file_name_exec(p: &[char]) -> (r: Option<Vec<char>>)
    ensures
        match r {
            Some(n) => file_name(p@) == Some(n@),
            None => file_name(p@) is None,
        },
{
    let c = components_exec(p);
    if c.len() == 0 {
        return None;
    }
    let last = &c[c.len() - 1];
    assert(views(c@).last() == last@);
    if is_marker_or_parent(last.as_slice()) {
        None
    } else {
        Some(to_vec(last.as_slice()))
    }
}

pub fn base_name_exec(p: &[char]) -> (r: Vec<char>)
    ensures
        r@ == base_name(p@),
{
    match file_name_exec(p) {
        Some(n) => n,
        None => to_vec(p),
    }
}

pub fn parent_components_exec(p: &[char]) -> (r: Vec<Vec<char>>)
    ensures
        views(r@) == parent_components(p@),
{
    let mut c = components_exec(p);
    if c.len() == 0 {
        return c;
    }
    let last_is_root = c[c.len() - 1].len() == 1 && c[c.len() - 1][0] == '/';
    proof {
        let l = views(c@).last();
        assert(l == c@[c@.len() - 1]@);
        if l.len() == 1 && l[0] == '/' {
            assert(l =~= root_marker());
        }
        if l == root_marker() {
            assert(l[0] == '/');
        }
    }
    if last_is_root {
        let e: Vec<Vec<char>> = Vec::new();
        assert(views(e@) =~= Seq::<Seq<char>>::empty());
        return e;
    }
    let ghost before = views(c@);
    c.pop();
    assert(views(c@) =~= before.drop_last());
    c
}

pub fn name_extension_exec(name: &[char]) -> (r: Option<Vec<char>>)
    ensures
        match r {
            Some(e) => name_extension(name@) == Some(e@),
            None => name_extension(name@) is None,
        },
{
    let is_parent = name.len() == 2 && name[0] == '.' && name[1] == '.';
    proof {
        if name@.len() == 2 && name@[0] == '.' && name@[1] == '.' {
            assert(name@ =~= parent_marker());
        }
        if name@ == parent_marker() {
            assert(name@[0] == '.' && name@[1] == '.');
        }
    }
    if is_parent {
        return None;
    }
    let dot = vec!['.'];
    assert(dot@ =~= seq!['.']);
    let n = name.len();
    proof {
        lemma_rfind_before_props(name@, seq!['.'], name@.len() + 1int);
    }
    match rfind_exec(name, dot.as_slice()) {
        Some(i) => {
            if i == 0 {
                None
            } else {
                assert(occurs_at(name@, seq!['.'], i as int));
                Some(slice_to_vec(name, i + 1, n))
            }
        },
        None => None,
    }
}

pub fn extension_exec(p: &[char]) -> (r: Option<Vec<char>>)
    ensures
        match r {
            Some(e) => extension(p@) == Some(e@),
            None => extension(p@) is None,
        },
{
    match file_name_exec(p) {
        Some(n) => name_extension_exec(n.as_slice()),
        None => None,
    }
}

pub fn join_components_exec(c: &[Vec<char>]) -> (r: Vec<char>)
    ensures
        r@ == join_components(views(c@)),
{
    let mut r: Vec<char> = Vec::new();
    let mut i: usize = 0;
    while i < c.len()
        invariant
            i <= c@.len(),
            r@ == join_components(views(c@).subrange(0, i as int)),
        decreases c@.len() - i,
    {
        let ghost pre = views(c@).subrange(0, i + 1);
        assert(pre.drop_last() =~= views(c@).subrange(0, i as int));
        assert(pre.last() == c@[i as int]@);
        if i > 0 {
            r.push('/');
        } else {
            assert(pre =~= seq![c@[0]@]);
        }
        append_chars(&mut r, c[i].as_slice());
        i = i + 1;
    }
    assert(views(c@).subrange(0, c@.len() as int) =~= views(c@));
    r
}

pub fn component_lists_eq(a: &[Vec<char>], b: &[Vec<char>]) -> (r: bool)
    ensures
        r == (views(a@) == views(b@)),
{
    if a.len() != b.len() {
        assert(views(a@).len() != views(b@).len());
        return false;
    }
    let mut i: usize = 0;
    while i < a.len()
        invariant
            a@.len() == b@.len(),
            i <= a@.len(),
            forall|k: int| 0 <= k < i ==> a@[k]@ == b@[k]@,
        decreases a@.len() - i,
    {
        if !chars_eq(a[i].as_slice(), b[i].as_slice()) {
            assert(views(a@)[i as int] != views(b@)[i as int]);
            return false;
        }
        i = i + 1;
    }
    assert(views(a@) =~= views(b@));
    true
}

pub fn is_prefix_components_exec(a: &[Vec<char>], b: &[Vec<char>]) -> (r: bool)
    ensures
        r == is_prefix_components(views(a@), views(b@)),
{
    if a.len() > b.len() {
        return false;
    }
    let mut i: usize = 0;
    while i < a.len()
        invariant
            a@.len() <= b@.len(),
            i <= a@.len(),
            forall|k: int| 0 <= k < i ==> a@[k]@ == b@[k]@,
        decreases a@.len() - i,
    {
        if !chars_eq(a[i].as_slice(), b[i].as_slice()) {
            assert(views(b@).subrange(0, a@.len() as int)[i as int] != views(a@)[i as int]);
            return false;
        }
        i = i + 1;
    }
    assert(views(b@).subrange(0, a@.len() as int) =~= views(a@));
    true
}

pub fn relative_to_exec(p: &[char], base: &[Vec<char>]) -> (r: Vec<char>)
    ensures
        r@ == relative_to(p@, views(base@)),
{
    let c = components_exec(p);
    if is_prefix_components_exec(base, c.as_slice()) {
        let mut rest: Vec<Vec<char>> = Vec::new();
        let mut i: usize = base.len();
        while i < c.len()
            invariant
                base@.len() <= i <= c@.len(),
                views(rest@) == views(c@).subrange(base@.len() as int, i as int),
            decreases c@.len() - i,
        {
            let ghost before = views(rest@);
            rest.push(to_vec(c[i].as_slice()));
            assert(views(rest@) =~= before.push(c@[i as int]@));
            assert(views(c@).subrange(base@.len() as int, i + 1) =~= views(c@).subrange(
                base@.len() as int,
                i as int,
            ).push(c@[i as int]@));
            i = i + 1;
        }
        join_components_exec(rest.as_slice())
    } else {
        to_vec(p)
    }
}

/// A path joined onto a base keeps the name's ending.
pub proof fn lemma_join_keeps_suffix(base: Seq<char>, name: Seq<char>, p: Seq<char>)
    requires
        crate::text::has_suffix(name, p),
    ensures
        crate::text::has_suffix(join(base, name), p),
{
    let j = join(base, name);
    if !(name.len() > 0 && name[0] == '/') && base.len() > 0 {
        let pre = if base.last() == '/' { base } else { base + seq!['/'] };
        assert(j == pre + name);
        assert(j.subrange(j.len() - p.len(), j.len() as int) =~= name.subrange(
            name.len() - p.len(),
            name.len() as int,
        ));
    }
}

} // verus!
