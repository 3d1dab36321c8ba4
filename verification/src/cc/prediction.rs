//! Machine paths, path mappings, and the inputs a prediction names.
use vstd::prelude::*;
use crate::cc::reason::{CcBypassReason, BypassView};
use crate::path::{
    components, components_of, is_absolute, join, join_parts, normalize_chars, normalized,
    path_starts_with, same_path, split_all, split_all_chars,
};
use crate::text::{copy_chars, contains_char, 
    chars_of, concat_chars, eq_chars, eq_lit, is_prefix, lit, skip, starts_with_chars, string_of,
    views,
};

verus! {

/// Absolute roots whose contents are keyed verbatim rather than through a
/// placeholder.
///
/// Files beneath these roots are still digested; keying the path verbatim
/// only declares that the path itself is a machine property rather than a
/// checkout-specific one, which is what makes system headers shareable
/// between worktrees on one machine.
pub open spec fn system_roots() -> Seq<Seq<char>> {
    seq![
        "/Applications/Xcode.app"@,
        "/Library/Developer"@,
        "/nix/store"@,
        "/usr/include"@,
        "/usr/lib"@,
        "/usr/local/include"@
    ]
}

/// Whether a path lies beneath a root whose location is a machine property.
pub open spec fn under_system_root(p: Seq<char>) -> bool {
    exists|i: int| 0 <= i < system_roots().len() && path_starts_with(p, #[trigger] system_roots()[i])
}

/// Whether two component lists start the same way.
fn components_prefix(root: &Vec<Vec<char>>, p: &Vec<Vec<char>>) -> (r: bool)
    ensures
        r == (views(root@).len() <= views(p@).len() && views(p@).take(views(root@).len() as int) == views(root@)),
{
    if root.len() > p.len() {
        return false;
    }
    let mut i: usize = 0;
    while i < root.len()
        invariant
            i <= root.len(),
            root.len() <= p.len(),
            forall|j: int| 0 <= j < i ==> views(p@)[j] == views(root@)[j],
        decreases root.len() - i,
    {
        if !eq_chars(root[i].as_slice(), p[i].as_slice()) {
            assert(views(p@).take(views(root@).len() as int)[i as int] != views(root@)[i as int]);
            return false;
        }
        i = i + 1;
    }
    assert(views(p@).take(views(root@).len() as int) =~= views(root@));
    true
}

/// Whether `p` lies at or beneath `root`, component by component.
pub fn starts_with_path(p: &[char], root: &[char]) -> (r: bool)
    ensures
        r == path_starts_with(p@, root@),
{
    let p_absolute = p.len() > 0 && p[0] == '/';
    let root_absolute = root.len() > 0 && root[0] == '/';
    if p_absolute != root_absolute {
        return false;
    }
    let pc = components_of(p);
    let rc = components_of(root);
    components_prefix(&rc, &pc)
}

/// Whether a path lies beneath a root whose location is a machine property.
pub fn is_system_path(path: &str) -> (r: bool)
    ensures
        r == under_system_root(path@),
{
    let p = chars_of(path);
    is_system_chars(p.as_slice())
}

fn is_system_chars(p: &[char]) -> (r: bool)
    ensures
        r == under_system_root(p@),
{
    let roots: [&str; 6] = [
        "/Applications/Xcode.app",
        "/Library/Developer",
        "/nix/store",
        "/usr/include",
        "/usr/lib",
        "/usr/local/include",
    ];
    proof {
        assert(roots@.map_values(|s: &str| s@) =~= system_roots());
    }
    let mut i: usize = 0;
    while i < 6
        invariant
            i <= 6,
            roots@.map_values(|s: &str| s@) == system_roots(),
            forall|j: int| 0 <= j < i ==> !path_starts_with(p@, #[trigger] system_roots()[j]),
        decreases 6 - i,
    {
        let root = lit(roots[i]);
        assert(root@ == system_roots()[i as int]);
        if starts_with_path(p, root.as_slice()) {
            return true;
        }
        i = i + 1;
    }
    false
}

/// Whether a suffix after a placeholder names only ordinary components:
/// no empty part, no `.` or `..`, no backslash.
pub open spec fn safe_suffix(suffix: Seq<char>) -> bool {
    suffix.len() == 0 || forall|k: int| 0 <= k < split_all(suffix, '/').len() ==> {
        let part = #[trigger] split_all(suffix, '/')[k];
        part.len() > 0 && part != "."@ && part != ".."@ && !part.contains('\\')
    }
}

fn safe_suffix_chars(suffix: &[char]) -> (r: bool)
    ensures
        r == safe_suffix(suffix@),
{
    if suffix.len() == 0 {
        return true;
    }
    let parts = split_all_chars(suffix, '/');
    assert(views(parts@).len() == parts@.len());
    let mut k: usize = 0;
    while k < parts.len()
        invariant
            k <= parts.len(),
            views(parts@) == split_all(suffix@, '/'),
            split_all(suffix@, '/').len() == parts@.len(),
            suffix@.len() > 0,
            forall|j: int| 0 <= j < k ==> {
                let part = #[trigger] split_all(suffix@, '/')[j];
                part.len() > 0 && part != "."@ && part != ".."@ && !part.contains('\\')
            },
        decreases parts.len() - k,
    {
        let part = parts[k].as_slice();
        assert(part@ == split_all(suffix@, '/')[k as int]);
        if part.len() == 0 || eq_lit(part, ".") || eq_lit(part, "..") {
            return false;
        }
        if contains_char(part, '\\') {
            return false;
        }
        assert(!part@.contains('\\'));
        k = k + 1;
    }
    assert(views(parts@).len() == parts@.len());
    true
}

/// A host root replaced with a stable placeholder in keys.
#[derive(Debug, Clone)]
pub struct PathMapping {
    /// Absolute host root.
    pub root: String,
    /// Bare placeholder name, spelled `${name}` in keys.
    pub placeholder: String,
}

/// A [`PathMapping`] taken by its characters.
pub ghost struct PathMappingView {
    pub root: Seq<char>,
    pub placeholder: Seq<char>,
}

impl View for PathMapping {
    type V = PathMappingView;

    open spec fn view(&self) -> PathMappingView {
        PathMappingView { root: self.root@, placeholder: self.placeholder@ }
    }
}

/// Mappings taken by their views.
pub open spec fn mappings_view(m: Seq<PathMapping>) -> Seq<PathMappingView> {
    m.map_values(|x: PathMapping| x@)
}

/// `${placeholder}`.
pub open spec fn placeholder_text(placeholder: Seq<char>) -> Seq<char> {
    "${"@ + placeholder + "}"@
}

/// What follows a placeholder that `value` starts with: nothing when the
/// value is the bare placeholder, else the part after `${placeholder}/`.
pub open spec fn placeholder_suffix(value: Seq<char>, placeholder: Seq<char>) -> Option<Seq<char>> {
    let prefix = placeholder_text(placeholder);
    if value == prefix {
        Some(Seq::empty())
    } else if is_prefix(prefix + "/"@, value) {
        Some(value.skip(prefix.len() + 1 as int))
    } else {
        None
    }
}

/// `root` extended with the non-empty components of `suffix`.
pub open spec fn extend_path(root: Seq<char>, suffix: Seq<char>) -> Seq<char> {
    let parts = split_all(suffix, '/').filter(|part: Seq<char>| part.len() > 0);
    if parts.len() == 0 {
        root
    } else if root.len() > 0 && root.last() == '/' {
        root + join(parts)
    } else {
        root + "/"@ + join(parts)
    }
}

/// Resolve a normalized key path back to a host path, trying the mappings
/// from `k` on in order.
///
/// Placeholder entries expand through their mapping; a verbatim entry is
/// accepted only when it is absolute, lies beneath an admitted system root
/// and is spelled literally, so a prediction cannot name an arbitrary path
/// or reach outside a root through `..`.
pub open spec fn denormalize_from(value: Seq<char>, mappings: Seq<PathMappingView>, k: int) -> Result<Seq<char>, BypassView>
    decreases mappings.len() - k,
{
    if k < 0 || k >= mappings.len() {
        if is_absolute(value) && under_system_root(value) && same_path(normalized(value), value) {
            Ok(value)
        } else {
            Err(BypassView::InvalidPredictedInput(value))
        }
    } else {
        match placeholder_suffix(value, mappings[k].placeholder) {
            None => denormalize_from(value, mappings, k + 1),
            Some(suffix) => {
                if !is_absolute(mappings[k].root) || !safe_suffix(suffix) {
                    Err(BypassView::InvalidPredictedInput(value))
                } else {
                    Ok(extend_path(normalized(mappings[k].root), suffix))
                }
            },
        }
    }
}

proof fn lemma_filter_nonempty_push(s: Seq<Seq<char>>, x: Seq<char>)
    ensures
        s.push(x).filter(|part: Seq<char>| part.len() > 0) == (if x.len() > 0 {
            s.filter(|part: Seq<char>| part.len() > 0).push(x)
        } else {
            s.filter(|part: Seq<char>| part.len() > 0)
        }),
{
    reveal_with_fuel(Seq::<Seq<char>>::filter, 1);
    assert(s.push(x).drop_last() =~= s);
}

fn nonempty_parts(parts: &Vec<Vec<char>>) -> (r: Vec<Vec<char>>)
    ensures
        views(r@) == views(parts@).filter(|part: Seq<char>| part.len() > 0),
{
    let ghost all = views(parts@);
    let mut r: Vec<Vec<char>> = Vec::new();
    let mut i: usize = 0;
    while i < parts.len()
        invariant
            i <= parts.len(),
            all == views(parts@),
            views(r@) == all.take(i as int).filter(|part: Seq<char>| part.len() > 0),
        decreases parts.len() - i,
    {
        proof {
            assert(all.take(i + 1) =~= all.take(i as int).push(all[i as int]));
            lemma_filter_nonempty_push(all.take(i as int), all[i as int]);
        }
        if parts[i].len() > 0 {
            let ghost before = r@;
            r.push(copy_chars(parts[i].as_slice()));
            assert(views(r@) =~= views(before).push(all[i as int]));
        }
        i = i + 1;
    }
    assert(all.take(parts.len() as int) =~= all);
    r
}

fn eq_component_lists(a: &Vec<Vec<char>>, b: &Vec<Vec<char>>) -> (r: bool)
    ensures
        r == (views(a@) == views(b@)),
{
    if a.len() != b.len() {
        assert(views(a@).len() != views(b@).len());
        return false;
    }
    let mut i: usize = 0;
    while i < a.len()
        invariant
            i <= a.len(),
            a.len() == b.len(),
            forall|j: int| 0 <= j < i ==> views(a@)[j] == views(b@)[j],
        decreases a.len() - i,
    {
        if !eq_chars(a[i].as_slice(), b[i].as_slice()) {
            assert(views(a@)[i as int] != views(b@)[i as int]);
            return false;
        }
        i = i + 1;
    }
    assert(views(a@) =~= views(b@));
    true
}

fn same_path_chars(a: &[char], b: &[char]) -> (r: bool)
    ensures
        r == same_path(a@, b@),
{
    let a_absolute = a.len() > 0 && a[0] == '/';
    let b_absolute = b.len() > 0 && b[0] == '/';
    if a_absolute != b_absolute {
        return false;
    }
    let ac = components_of(a);
    let bc = components_of(b);
    eq_component_lists(&ac, &bc)
}

fn placeholder_suffix_of(value: &[char], placeholder: &[char]) -> (r: Option<Vec<char>>)
    ensures
        match placeholder_suffix(value@, placeholder@) {
            Some(s) => r matches Some(x) && x@ == s,
            None => r is None,
        },
{
    let open = lit("${");
    let close = lit("}");
    let slash = lit("/");
    let head = concat_chars(open.as_slice(), placeholder);
    let prefix = concat_chars(head.as_slice(), close.as_slice());
    if eq_chars(value, prefix.as_slice()) {
        return Some(Vec::new());
    }
    let with_slash = concat_chars(prefix.as_slice(), slash.as_slice());
    if starts_with_chars(value, with_slash.as_slice()) {
        assert("/"@.len() == 1) by { reveal_strlit("/"); }
        assert(with_slash@.len() == prefix@.len() + 1);
        return Some(skip(value, with_slash.len()));
    }
    None
}

fn extend_path_chars(root: &[char], suffix: &[char]) -> (r: Vec<char>)
    ensures
        r@ == extend_path(root@, suffix@),
{
    let all = split_all_chars(suffix, '/');
    let parts = nonempty_parts(&all);
    if parts.len() == 0 {
        return copy_chars(root);
    }
    let joined = join_parts(&parts);
    if root.len() > 0 && root[root.len() - 1] == '/' {
        concat_chars(root, joined.as_slice())
    } else {
        let slash = lit("/");
        let head = concat_chars(root, slash.as_slice());
        concat_chars(head.as_slice(), joined.as_slice())
    }
}

/// Resolve a normalized key path back to a host path.
///
/// Placeholder entries expand through the first mapping whose placeholder
/// they start with; a verbatim entry is accepted only when it still lies
/// beneath an admitted system root and is spelled literally.
pub fn denormalize_path(value: &str, mappings: &[PathMapping]) -> (r: Result<String, CcBypassReason>)
    ensures
        match denormalize_from(value@, mappings_view(mappings@), 0) {
            Ok(p) => r matches Ok(x) && x@ == p,
            Err(e) => r matches Err(x) && x@ == e,
        },
{
    let v = chars_of(value);
    let ghost ms = mappings_view(mappings@);
    let mut k: usize = 0;
    while k < mappings.len()
        invariant
            k <= mappings.len(),
            ms == mappings_view(mappings@),
            ms.len() == mappings@.len(),
            v@ == value@,
            denormalize_from(v@, ms, k as int) == denormalize_from(v@, ms, 0),
        decreases mappings.len() - k,
    {
        let mapping = &mappings[k];
        assert(ms[k as int] == mapping@);
        let placeholder = chars_of(mapping.placeholder.as_str());
        match placeholder_suffix_of(v.as_slice(), placeholder.as_slice()) {
            None => {},
            Some(suffix) => {
                let root = chars_of(mapping.root.as_str());
                assert(root@ == ms[k as int].root);
                assert(placeholder_suffix(v@, ms[k as int].placeholder) == Some(suffix@));
                assert(denormalize_from(v@, ms, k as int) == (if !is_absolute(ms[k as int].root) || !safe_suffix(suffix@) {
                    Err(BypassView::InvalidPredictedInput(v@))
                } else {
                    Ok(extend_path(normalized(ms[k as int].root), suffix@))
                }));
                if !(root.len() > 0 && root[0] == '/') || !safe_suffix_chars(suffix.as_slice()) {
                    return Err(CcBypassReason::InvalidPredictedInput(string_of(v.as_slice())));
                }
                let base = normalize_chars(root.as_slice());
                let path = extend_path_chars(base.as_slice(), suffix.as_slice());
                return Ok(string_of(path.as_slice()));
            },
        }
        k = k + 1;
    }
    let absolute = v.len() > 0 && v[0] == '/';
    if absolute && is_system_chars(v.as_slice()) {
        let n = normalize_chars(v.as_slice());
        if same_path_chars(n.as_slice(), v.as_slice()) {
            return Ok(string_of(v.as_slice()));
        }
    }
    Err(CcBypassReason::InvalidPredictedInput(string_of(v.as_slice())))
}

/// The roots whose locations are a property of the machine are exactly
/// these six: Xcode, the developer tools, the Nix store, the system headers,
/// the system libraries (where compilers keep their own headers) and the
/// locally installed headers.
pub proof fn lemma_system_roots(p: Seq<char>)
    ensures
        path_starts_with(p, "/Applications/Xcode.app"@) ==> under_system_root(p),
        path_starts_with(p, "/Library/Developer"@) ==> under_system_root(p),
        path_starts_with(p, "/nix/store"@) ==> under_system_root(p),
        path_starts_with(p, "/usr/include"@) ==> under_system_root(p),
        path_starts_with(p, "/usr/lib"@) ==> under_system_root(p),
        path_starts_with(p, "/usr/local/include"@) ==> under_system_root(p),
        under_system_root(p) ==> path_starts_with(p, "/Applications/Xcode.app"@) || path_starts_with(p, "/Library/Developer"@)
            || path_starts_with(p, "/nix/store"@) || path_starts_with(p, "/usr/include"@) || path_starts_with(p, "/usr/lib"@)
            || path_starts_with(p, "/usr/local/include"@),
{
    let r = system_roots();
    assert(r[0] == "/Applications/Xcode.app"@);
    assert(r[1] == "/Library/Developer"@);
    assert(r[2] == "/nix/store"@);
    assert(r[3] == "/usr/include"@);
    assert(r[4] == "/usr/lib"@);
    assert(r[5] == "/usr/local/include"@);
}

/// A predicted path that names a file beneath a system root by its plain
/// absolute spelling needs no mapping: it is taken back verbatim.
pub proof fn lemma_system_paths_stay_verbatim(p: Seq<char>)
    requires
        is_absolute(p),
        same_path(normalized(p), p),
        path_starts_with(p, "/Applications/Xcode.app"@) || path_starts_with(p, "/Library/Developer"@)
            || path_starts_with(p, "/nix/store"@) || path_starts_with(p, "/usr/include"@) || path_starts_with(p, "/usr/lib"@)
            || path_starts_with(p, "/usr/local/include"@),
    ensures
        denormalize_from(p, Seq::empty(), 0) == Ok::<Seq<char>, BypassView>(p),
{
    lemma_system_roots(p);
}

} // verus!
