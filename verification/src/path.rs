//! Unix path text: file names, extensions, joining and normalization.
//!
//! Paths are carried as their UTF-8 text; `/` separates components.
use vstd::prelude::*;
use crate::text::{views, eq_lit, slice, skip, copy_chars, first_index, find_char, concat_chars};

verus! {

/// The index of the last `c` in `s`, if any.
pub open spec fn last_index(s: Seq<char>, c: char) -> Option<int> {
    if s.contains(c) {
        Some(choose|i: int| 0 <= i < s.len() && s[i] == c && forall|j: int| i < j < s.len() ==> s[j] != c)
    } else {
        None
    }
}

/// The final component of a path, as `Path::file_name` reports it: trailing
/// separators and `.` components are skipped, and a path ending in `..`, or
/// naming no component at all, has none.
pub open spec fn file_name(p: Seq<char>) -> Option<Seq<char>>
    decreases p.len(),
{
    if p.len() == 0 {
        None
    } else if p.last() == '/' {
        file_name(p.drop_last())
    } else {
        match last_index(p, '/') {
            Some(i) => if i < 0 || i >= p.len() {
                None
            } else {
                let name = p.skip(i + 1);
                if name == "."@ {
                    file_name(p.take(i))
                } else if name == ".."@ {
                    None
                } else {
                    Some(name)
                }
            },
            None => {
                if p == "."@ || p == ".."@ {
                    None
                } else {
                    Some(p)
                }
            },
        }
    }
}

/// The extension of a file name: what follows its last `.`, unless that dot
/// opens the name.
pub open spec fn extension(name: Seq<char>) -> Option<Seq<char>> {
    match last_index(name, '.') {
        Some(i) => if i == 0 { None } else { Some(name.skip(i + 1)) },
        None => None,
    }
}

/// A path's extension, or nothing.
pub open spec fn extension_of(p: Seq<char>) -> Seq<char> {
    match file_name(p) {
        Some(name) => match extension(name) {
            Some(e) => e,
            None => Seq::empty(),
        },
        None => Seq::empty(),
    }
}

/// Whether a path is absolute.
pub open spec fn is_absolute(p: Seq<char>) -> bool {
    p.len() > 0 && p[0] == '/'
}

/// The index of the last `c` in `v`.
pub fn find_last_char(v: &[char], c: char) -> (r: Option<usize>)
    ensures
        r matches Some(i) ==> last_index(v@, c) == Some(i as int) && i < v.len(),
        r is None ==> last_index(v@, c) is None,
{
    let mut i: usize = v.len();
    while i > 0
        invariant
            i <= v.len(),
            forall|j: int| i <= j < v.len() ==> v@[j] != c,
        decreases i,
    {
        if v[i - 1] == c {
            let k = i - 1;
            assert(v@.contains(c)) by { assert(v@[k as int] == c); }
            let ghost w = choose|w: int| 0 <= w < v@.len() && v@[w] == c && forall|j: int| w < j < v@.len() ==> v@[j] != c;
            assert(w == k) by {
                if w < k { assert(v@[k as int] == c); }
                if w > k { assert(v@[w] != c); }
            }
            return Some(k);
        }
        i = i - 1;
    }
    assert(!v@.contains(c)) by {
        if v@.contains(c) {
            let k = choose|k: int| 0 <= k < v@.len() && v@[k] == c;
            assert(v@[k] != c);
        }
    }
    None
}

/// The final component of `p`.
pub fn file_name_of(p: &[char]) -> (r: Option<Vec<char>>)
    ensures
        r is Some <==> file_name(p@) is Some,
        r matches Some(n) ==> file_name(p@) == Some(n@),
    decreases p.len(),
{
    if p.len() == 0 {
        None
    } else if p[p.len() - 1] == '/' {
        let shorter = slice(p, 0, p.len() - 1);
        assert(shorter@ == p@.drop_last());
        file_name_of(shorter.as_slice())
    } else {
        match find_last_char(p, '/') {
            Some(i) => {
                let name = skip(p, i + 1);
                if eq_lit(name.as_slice(), ".") {
                    let prefix = slice(p, 0, i);
                    assert(prefix@ == p@.take(i as int));
                    file_name_of(prefix.as_slice())
                } else if eq_lit(name.as_slice(), "..") {
                    None
                } else {
                    Some(name)
                }
            },
            None => {
                if eq_lit(p, ".") || eq_lit(p, "..") {
                    None
                } else {
                    Some(copy_chars(p))
                }
            },
        }
    }
}

/// The extension of `p`, or nothing.
pub fn extension_chars(p: &[char]) -> (r: Vec<char>)
    ensures
        r@ == extension_of(p@),
{
    match file_name_of(p) {
        Some(name) => match find_last_char(name.as_slice(), '.') {
            Some(i) => if i == 0 { Vec::new() } else { skip(name.as_slice(), i + 1) },
            None => Vec::new(),
        },
        None => Vec::new(),
    }
}


/// The parts of `s` between separators `c`, empty ones included, as
/// `str::split` yields them.
#[verifier::opaque]
pub open spec fn split_all(s: Seq<char>, c: char) -> Seq<Seq<char>>
    decreases s.len(),
{
    match first_index(s, c) {
        Some(i) => if 0 <= i < s.len() {
            seq![s.take(i)] + split_all(s.skip(i + 1), c)
        } else {
            seq![s]
        },
        None => seq![s],
    }
}

/// The named components of a path: its `/`-separated parts, without the
/// empty ones and without `.`, as `Path::components` reports them past the
/// root.
pub open spec fn components(p: Seq<char>) -> Seq<Seq<char>> {
    split_all(p, '/').filter(|part: Seq<char>| part.len() > 0 && part != "."@)
}

/// The components left after resolving `..` against the ones before it,
/// as pushing and popping a `PathBuf` does.
pub open spec fn resolve_dots(parts: Seq<Seq<char>>) -> Seq<Seq<char>>
    decreases parts.len(),
{
    if parts.len() == 0 {
        Seq::empty()
    } else {
        let before = resolve_dots(parts.drop_last());
        let last = parts.last();
        if last == ".."@ {
            if before.len() > 0 { before.drop_last() } else { before }
        } else {
            before.push(last)
        }
    }
}

/// Components joined with `/`.
pub open spec fn join(parts: Seq<Seq<char>>) -> Seq<char>
    decreases parts.len(),
{
    if parts.len() == 0 {
        Seq::empty()
    } else if parts.len() == 1 {
        parts[0]
    } else {
        join(parts.drop_last()) + "/"@ + parts.last()
    }
}

/// A path with `.` dropped and `..` resolved lexically.
pub open spec fn normalized(p: Seq<char>) -> Seq<char> {
    let rest = join(resolve_dots(components(p)));
    if is_absolute(p) { "/"@ + rest } else { rest }
}

/// Whether two paths name the same components from the same kind of start,
/// as `Path` equality does.
pub open spec fn same_path(a: Seq<char>, b: Seq<char>) -> bool {
    is_absolute(a) == is_absolute(b) && components(a) == components(b)
}

/// Whether `p` lies at or beneath `root`, component by component, as
/// `Path::starts_with` decides.
pub open spec fn path_starts_with(p: Seq<char>, root: Seq<char>) -> bool {
    is_absolute(p) == is_absolute(root) && components(root).len() <= components(p).len()
        && components(p).take(components(root).len() as int) == components(root)
}

proof fn lemma_filter_push(s: Seq<Seq<char>>, x: Seq<char>)
    ensures
        s.push(x).filter(|part: Seq<char>| part.len() > 0 && part != "."@) == (if x.len() > 0 && x != "."@ {
            s.filter(|part: Seq<char>| part.len() > 0 && part != "."@).push(x)
        } else {
            s.filter(|part: Seq<char>| part.len() > 0 && part != "."@)
        }),
{
    reveal_with_fuel(Seq::<Seq<char>>::filter, 1);
    assert(s.push(x).drop_last() =~= s);
}

proof fn lemma_split_all_step(s: Seq<char>, c: char)
    ensures
        match first_index(s, c) {
            Some(i) => 0 <= i < s.len() ==> split_all(s, c) == seq![s.take(i)] + split_all(s.skip(i + 1), c),
            None => split_all(s, c) == seq![s],
        },
{
    reveal(split_all);
}

proof fn lemma_views_insert_front(rest: Seq<Vec<char>>, head: Vec<char>)
    ensures
        views(rest.insert(0, head)) == seq![head@] + views(rest),
{
    assert(views(rest.insert(0, head)) =~= seq![head@] + views(rest));
}

/// The parts of `s` between `c` separators, empty ones included.
pub fn split_all_chars(s: &[char], c: char) -> (r: Vec<Vec<char>>)
    ensures
        views(r@) == split_all(s@, c),
    decreases s.len(),
{
    match find_char(s, c) {
        Some(i) => {
            let head = slice(s, 0, i);
            let tail = skip(s, i + 1);
            let mut r = split_all_chars(tail.as_slice(), c);
            let ghost rest = r@;
            r.insert(0, head);
            proof {
                lemma_views_insert_front(rest, head);
                lemma_split_all_step(s@, c);
            }
            r
        },
        None => {
            let mut r: Vec<Vec<char>> = Vec::new();
            r.push(copy_chars(s));
            proof { lemma_split_all_step(s@, c); }
            assert(views(r@) =~= seq![s@]);
            r
        },
    }
}

/// The named components of `p`.
pub fn components_of(p: &[char]) -> (r: Vec<Vec<char>>)
    ensures
        views(r@) == components(p@),
{
    let parts = split_all_chars(p, '/');
    let ghost all = views(parts@);
    let mut r: Vec<Vec<char>> = Vec::new();
    let mut i: usize = 0;
    while i < parts.len()
        invariant
            i <= parts.len(),
            all == views(parts@),
            views(r@) == all.take(i as int).filter(|part: Seq<char>| part.len() > 0 && part != "."@),
        decreases parts.len() - i,
    {
        let part = &parts[i];
        proof {
            assert(all.take(i + 1) =~= all.take(i as int).push(all[i as int]));
            lemma_filter_push(all.take(i as int), all[i as int]);
        }
        if part.len() > 0 && !eq_lit(part.as_slice(), ".") {
            let ghost before = r@;
            r.push(copy_chars(part.as_slice()));
            assert(views(r@) =~= before.map_values(|v: Vec<char>| v@).push(part@));
        }
        i = i + 1;
    }
    assert(all.take(parts.len() as int) =~= all);
    r
}

/// `parts` with `..` resolved against the parts before it.
pub fn resolve_dots_of(parts: &Vec<Vec<char>>) -> (r: Vec<Vec<char>>)
    ensures
        views(r@) == resolve_dots(views(parts@)),
{
    let ghost all = views(parts@);
    let mut r: Vec<Vec<char>> = Vec::new();
    let mut i: usize = 0;
    while i < parts.len()
        invariant
            i <= parts.len(),
            all == views(parts@),
            views(r@) == resolve_dots(all.take(i as int)),
        decreases parts.len() - i,
    {
        proof {
            assert(all.take(i + 1).drop_last() =~= all.take(i as int));
        }
        let ghost before = r@;
        if eq_lit(parts[i].as_slice(), "..") {
            if r.len() > 0 {
                r.pop();
                assert(views(r@) =~= before.map_values(|v: Vec<char>| v@).drop_last());
            }
        } else {
            r.push(copy_chars(parts[i].as_slice()));
            assert(views(r@) =~= before.map_values(|v: Vec<char>| v@).push(all[i as int]));
        }
        i = i + 1;
    }
    assert(all.take(parts.len() as int) =~= all);
    r
}

/// `parts` joined with `/`.
pub fn join_parts(parts: &Vec<Vec<char>>) -> (r: Vec<char>)
    ensures
        r@ == join(views(parts@)),
{
    let ghost all = views(parts@);
    let mut r: Vec<char> = Vec::new();
    let mut i: usize = 0;
    while i < parts.len()
        invariant
            i <= parts.len(),
            all == views(parts@),
            r@ == join(all.take(i as int)),
        decreases parts.len() - i,
    {
        proof {
            assert(all.take(i + 1).drop_last() =~= all.take(i as int));
        }
        if i == 0 {
            r = copy_chars(parts[i].as_slice());
            assert(all.take(1) =~= seq![all[0]]);
        } else {
            let sep = concat_chars(r.as_slice(), &['/']);
            assert(['/']@ =~= "/"@) by { reveal_strlit("/"); }
            r = concat_chars(sep.as_slice(), parts[i].as_slice());
        }
        i = i + 1;
    }
    assert(all.take(parts.len() as int) =~= all);
    r
}

/// `p` with `.` dropped and `..` resolved lexically.
pub fn normalize_chars(p: &[char]) -> (r: Vec<char>)
    ensures
        r@ == normalized(p@),
{
    let parts = components_of(p);
    let resolved = resolve_dots_of(&parts);
    let rest = join_parts(&resolved);
    if p.len() > 0 && p[0] == '/' {
        assert(['/']@ =~= "/"@) by { reveal_strlit("/"); }
        concat_chars(&['/'], rest.as_slice())
    } else {
        rest
    }
}

} // verus!
