//! Which include directories need a name manifest of their own: a recursive
//! manifest of an ancestor already names every includable file below it.
use vstd::prelude::*;
use crate::agent::digest::{text_less, lemma_text_order, text_before};
use crate::path::{components, resolve_dots, is_absolute, join, components_of, resolve_dots_of, join_parts};
use crate::text::{chars_of, string_of, views, copy_chars};
use crate::cargo::args::strs;
use crate::agent::digest::{CacheDigest, DigestView};
use crate::cc::discovery::{include_manifest, is_includable_name, includable_count, includable_paths, entry_texts, names_digest, MAX_MANIFEST_ENTRIES};
use crate::cc::reason::{CcBypassReason, BypassView};

verus! {

/// A directory as it is ordered and compared: its text, whether it is
/// absolute, and its components with `.` dropped and `..` resolved.
pub ghost struct DirView {
    pub text: Seq<char>,
    pub absolute: bool,
    pub parts: Seq<Seq<char>>,
}

/// The view of a directory's text.
pub open spec fn dir_view(text: Seq<char>) -> DirView {
    DirView { text, absolute: is_absolute(text), parts: resolve_dots(components(text)) }
}

/// Lexicographic order of component lists.
pub open spec fn parts_less(a: Seq<Seq<char>>, b: Seq<Seq<char>>) -> bool
    decreases a.len(),
{
    if a.len() == 0 {
        b.len() > 0
    } else if b.len() == 0 {
        false
    } else if a[0] != b[0] {
        text_less(a[0], b[0])
    } else {
        parts_less(a.drop_first(), b.drop_first())
    }
}

/// Order of normalized paths as `Path` orders them: component by
/// component, the root before any name.
pub open spec fn normalized_less(a: DirView, b: DirView) -> bool {
    if a.absolute == b.absolute {
        parts_less(a.parts, b.parts)
    } else if a.absolute {
        b.parts.len() > 0
    } else {
        a.parts.len() == 0
    }
}

/// The order in which directories are considered: shallower first, then by
/// normalized path, then by text.
pub open spec fn dir_less(a: DirView, b: DirView) -> bool {
    a.parts.len() < b.parts.len() || (a.parts.len() == b.parts.len() && (normalized_less(a, b)
        || (a.absolute == b.absolute && a.parts == b.parts && text_less(a.text, b.text))))
}

proof fn lemma_parts_order(a: Seq<Seq<char>>, b: Seq<Seq<char>>, c: Seq<Seq<char>>)
    ensures
        !parts_less(a, a),
        parts_less(a, b) ==> !parts_less(b, a),
        a != b ==> parts_less(a, b) || parts_less(b, a),
        parts_less(a, b) && parts_less(b, c) ==> parts_less(a, c),
    decreases a.len(),
{
    if a.len() > 0 {
        lemma_text_order(a[0], a[0], a[0]);
    }
    if a.len() > 0 && b.len() > 0 {
        lemma_text_order(a[0], b[0], b[0]);
        lemma_text_order(b[0], a[0], a[0]);
    }
    if a.len() > 0 && b.len() > 0 && c.len() > 0 {
        lemma_parts_order(a.drop_first(), b.drop_first(), c.drop_first());
        lemma_text_order(a[0], b[0], c[0]);
    } else if a.len() > 0 && b.len() > 0 {
        lemma_parts_order(a.drop_first(), b.drop_first(), b.drop_first());
    } else if a.len() > 0 {
        lemma_parts_order(a.drop_first(), a.drop_first(), a.drop_first());
    }
    if a.len() > 0 && b.len() > 0 && a[0] == b[0] && a.drop_first() == b.drop_first() {
        assert forall|i: int| 0 <= i < a.len() implies a[i] == b[i] by {
            if i > 0 {
                assert(a[i] == a.drop_first()[i - 1]);
                assert(b[i] == b.drop_first()[i - 1]);
            }
        }
        assert(a =~= b);
    }
    if a.len() == 0 && b.len() == 0 {
        assert(a =~= b);
    }
}

/// The consideration order is a strict total order on distinct texts.
pub proof fn lemma_dir_order(a: DirView, b: DirView, c: DirView)
    requires
        a == dir_view(a.text),
        b == dir_view(b.text),
        c == dir_view(c.text),
    ensures
        !dir_less(a, a),
        dir_less(a, b) ==> !dir_less(b, a),
        a.text != b.text ==> dir_less(a, b) || dir_less(b, a),
        dir_less(a, b) && dir_less(b, c) ==> dir_less(a, c),
{
    lemma_parts_order(a.parts, b.parts, c.parts);
    lemma_parts_order(b.parts, a.parts, c.parts);
    lemma_parts_order(a.parts, c.parts, b.parts);
    lemma_parts_order(a.parts, a.parts, a.parts);
    lemma_text_order(a.text, b.text, c.text);
    lemma_text_order(b.text, a.text, c.text);
    lemma_text_order(a.text, a.text, a.text);
}

/// The text of a normalized path with these components.
pub open spec fn rendered(absolute: bool, parts: Seq<Seq<char>>) -> Seq<char> {
    if absolute { "/"@ + join(parts) } else { join(parts) }
}

/// Whether a recursive walk of `ancestor` is sure to visit `descendant`:
/// the descendant lies strictly below it, component by component, and every
/// directory on the way down is among `plain_dirs`, the directories known to be
/// directories and not symbolic links (the walk does not follow links
/// beneath its start).
pub open spec fn covers(ancestor: DirView, descendant: DirView, plain_dirs: Seq<Seq<char>>) -> bool {
    &&& ancestor.absolute == descendant.absolute
    &&& ancestor.parts.len() < descendant.parts.len()
    &&& descendant.parts.take(ancestor.parts.len() as int) == ancestor.parts
    &&& forall|k: int| ancestor.parts.len() < k <= descendant.parts.len()
        ==> plain_dirs.contains(#[trigger] rendered(descendant.absolute, descendant.parts.take(k)))
}

/// The directories kept from `sorted`, in order: each unless a kept one
/// covers it.
pub open spec fn kept_dirs(sorted: Seq<DirView>, plain_dirs: Seq<Seq<char>>) -> Seq<DirView>
    decreases sorted.len(),
{
    if sorted.len() == 0 {
        Seq::empty()
    } else {
        let kept = kept_dirs(sorted.drop_last(), plain_dirs);
        if exists|k: int| 0 <= k < kept.len() && covers(#[trigger] kept[k], sorted.last(), plain_dirs) {
            kept
        } else {
            kept.push(sorted.last())
        }
    }
}

/// A directory with its normalized form, as the scan holds it.
struct Dir {
    text: String,
    absolute: bool,
    parts: Vec<Vec<char>>,
}

spec fn dir_of(d: Dir) -> DirView {
    DirView { text: d.text@, absolute: d.absolute, parts: views(d.parts@) }
}

spec fn dirs_of(ds: Seq<Dir>) -> Seq<DirView> {
    ds.map_values(|d: Dir| dir_of(d))
}

fn describe(text: &String) -> (r: Dir)
    ensures
        dir_of(r) == dir_view(text@),
{
    let chars = chars_of(text.as_str());
    let parts = components_of(&chars);
    let resolved = resolve_dots_of(&parts);
    Dir { text: text.clone(), absolute: chars.len() > 0 && chars[0] == '/', parts: resolved }
}

fn parts_before(a: &Vec<Vec<char>>, b: &Vec<Vec<char>>) -> (r: bool)
    ensures
        r == parts_less(views(a@), views(b@)),
{
    let ghost av = views(a@);
    let ghost bv = views(b@);
    let mut i: usize = 0;
    assert(av.skip(0) == av);
    assert(bv.skip(0) == bv);
    while i < a.len() && i < b.len()
        invariant
            i <= a.len(),
            i <= b.len(),
            av == views(a@),
            bv == views(b@),
            parts_less(av, bv) == parts_less(av.skip(i as int), bv.skip(i as int)),
        decreases a.len() - i,
    {
        assert(av.skip(i as int)[0] == a@[i as int]@);
        assert(bv.skip(i as int)[0] == b@[i as int]@);
        if !crate::text::eq_chars(&a[i], &b[i]) {
            return text_before(&a[i], &b[i]);
        }
        assert(av.skip(i as int).drop_first() == av.skip(i + 1));
        assert(bv.skip(i as int).drop_first() == bv.skip(i + 1));
        i = i + 1;
    }
    assert(av.skip(i as int).len() == a.len() - i);
    assert(bv.skip(i as int).len() == b.len() - i);
    i == a.len() && i < b.len()
}

fn same_parts(a: &Vec<Vec<char>>, b: &Vec<Vec<char>>) -> (r: bool)
    ensures
        r == (views(a@) == views(b@)),
{
    if a.len() != b.len() {
        assert(views(a@).len() != views(b@).len());
        return false;
    }
    let mut i: usize = 0;
    while i < a.len()
        invariant
            i <= a.len(),
            a.len() == b.len(),
            forall|j: int| 0 <= j < i ==> a@[j]@ == b@[j]@,
        decreases a.len() - i,
    {
        if !crate::text::eq_chars(&a[i], &b[i]) {
            assert(views(a@)[i as int] != views(b@)[i as int]);
            return false;
        }
        i = i + 1;
    }
    assert(views(a@) =~= views(b@));
    true
}

fn dir_before(a: &Dir, b: &Dir) -> (r: bool)
    ensures
        r == dir_less(dir_of(*a), dir_of(*b)),
{
    if a.parts.len() != b.parts.len() {
        return a.parts.len() < b.parts.len();
    }
    let normalized = if a.absolute == b.absolute {
        parts_before(&a.parts, &b.parts)
    } else if a.absolute {
        b.parts.len() > 0
    } else {
        a.parts.len() == 0
    };
    if normalized {
        return true;
    }
    if a.absolute == b.absolute && same_parts(&a.parts, &b.parts) {
        let at = chars_of(a.text.as_str());
        let bt = chars_of(b.text.as_str());
        return text_before(&at, &bt);
    }
    false
}

fn render(d: &Dir, k: usize) -> (r: String)
    requires
        k <= d.parts.len(),
    ensures
        r@ == rendered(d.absolute, views(d.parts@).take(k as int)),
{
    let mut prefix: Vec<Vec<char>> = Vec::new();
    let mut j: usize = 0;
    while j < k
        invariant
            j <= k <= d.parts.len(),
            views(prefix@) == views(d.parts@).take(j as int),
        decreases k - j,
    {
        let ghost before = views(prefix@);
        prefix.push(copy_chars(&d.parts[j]));
        assert(views(prefix@) =~= before.push(views(d.parts@)[j as int]));
        assert(views(d.parts@).take(j + 1) =~= views(d.parts@).take(j as int).push(views(d.parts@)[j as int]));
        j = j + 1;
    }
    let joined = join_parts(&prefix);
    if d.absolute {
        let mut rooted: Vec<char> = Vec::new();
        rooted.push('/');
        proof {
            reveal_strlit("/");
        }
        assert(rooted@ == "/"@);
        let whole = crate::text::concat_chars(&rooted, &joined);
        string_of(&whole)
    } else {
        string_of(&joined)
    }
}

fn listed(plain_dirs: &[String], path: &String) -> (r: bool)
    ensures
        r == strs(plain_dirs@).contains(path@),
{
    let mut i: usize = 0;
    while i < plain_dirs.len()
        invariant
            i <= plain_dirs.len(),
            forall|j: int| 0 <= j < i ==> strs(plain_dirs@)[j] != path@,
        decreases plain_dirs.len() - i,
    {
        if plain_dirs[i] == *path {
            assert(strs(plain_dirs@)[i as int] == path@);
            return true;
        }
        i = i + 1;
    }
    false
}

fn covers_dir(ancestor: &Dir, descendant: &Dir, plain_dirs: &[String]) -> (r: bool)
    ensures
        r == covers(dir_of(*ancestor), dir_of(*descendant), strs(plain_dirs@)),
{
    let ghost a = dir_of(*ancestor);
    let ghost d = dir_of(*descendant);
    if ancestor.absolute != descendant.absolute || ancestor.parts.len() >= descendant.parts.len() {
        return false;
    }
    let mut i: usize = 0;
    while i < ancestor.parts.len()
        invariant
            i <= ancestor.parts.len() < descendant.parts.len(),
            a == dir_of(*ancestor),
            d == dir_of(*descendant),
            forall|j: int| 0 <= j < i ==> d.parts[j] == a.parts[j],
        decreases ancestor.parts.len() - i,
    {
        if !crate::text::eq_chars(&ancestor.parts[i], &descendant.parts[i]) {
            assert(d.parts.take(a.parts.len() as int)[i as int] != a.parts[i as int]);
            return false;
        }
        i = i + 1;
    }
    assert(d.parts.take(a.parts.len() as int) =~= a.parts);
    let mut k: usize = ancestor.parts.len();
    while k < descendant.parts.len()
        invariant
            ancestor.parts.len() <= k <= descendant.parts.len(),
            a == dir_of(*ancestor),
            d == dir_of(*descendant),
            forall|m: int| a.parts.len() < m <= k ==> strs(plain_dirs@).contains(#[trigger] rendered(d.absolute, d.parts.take(m))),
        decreases descendant.parts.len() - k,
    {
        let path = render(descendant, k + 1);
        if !listed(plain_dirs, &path) {
            return false;
        }
        k = k + 1;
    }
    true
}

/// The normalized prefixes of `directories` whose kind a caller must look up
/// before [`minimal_manifest_directories`] can decide coverage: each, below
/// its root, with one more component than the last.
pub fn coverage_probes(directories: &Vec<String>) -> (r: Vec<String>)
    ensures
        forall|i: int, k: int| 0 <= i < directories.len() && 0 < k <= dir_view(directories@[i]@).parts.len()
            ==> strs(r@).contains(#[trigger] rendered(dir_view(directories@[i]@).absolute, dir_view(directories@[i]@).parts.take(k))),
{
    let mut out: Vec<String> = Vec::new();
    let mut i: usize = 0;
    while i < directories.len()
        invariant
            i <= directories.len(),
            forall|a: int, k: int| 0 <= a < i && 0 < k <= dir_view(directories@[a]@).parts.len()
                ==> strs(out@).contains(#[trigger] rendered(dir_view(directories@[a]@).absolute, dir_view(directories@[a]@).parts.take(k))),
        decreases directories.len() - i,
    {
        let d = describe(&directories[i]);
        let mut k: usize = 0;
        while k < d.parts.len()
            invariant
                k <= d.parts.len(),
                i < directories.len(),
                dir_of(d) == dir_view(directories@[i as int]@),
                forall|a: int, m: int| 0 <= a < i && 0 < m <= dir_view(directories@[a]@).parts.len()
                    ==> strs(out@).contains(#[trigger] rendered(dir_view(directories@[a]@).absolute, dir_view(directories@[a]@).parts.take(m))),
                forall|m: int| 0 < m <= k ==> strs(out@).contains(#[trigger] rendered(dir_of(d).absolute, dir_of(d).parts.take(m))),
            decreases d.parts.len() - k,
        {
            let path = render(&d, k + 1);
            let ghost before = strs(out@);
            out.push(path);
            assert(strs(out@) =~= before.push(path@));
            assert forall|x: Seq<char>| before.contains(x) implies strs(out@).contains(x) by {
                let j = choose|j: int| 0 <= j < before.len() && before[j] == x;
                assert(strs(out@)[j] == x);
            }
            assert(strs(out@)[before.len() as int] == path@);
            k = k + 1;
        }
        i = i + 1;
    }
    out
}

/// Drop include directories already covered by an ancestor's recursive
/// manifest, keeping the rest in consideration order; `plain_dirs` lists which of
/// the [`coverage_probes`] are directories and not symbolic links.
///
/// Keeping both an ancestor and its descendants walks and hashes the same
/// subtree repeatedly, and can exhaust the manifest-entry budget even though
/// the ancestor already names every includable file below it.
pub fn minimal_manifest_directories(directories: &Vec<String>, plain_dirs: &[String]) -> (r: Vec<String>)
    requires
        strs(directories@).no_duplicates(),
    ensures
        exists|sorted: Seq<DirView>| {
            &&& forall|i: int, j: int| 0 <= i < j < sorted.len() ==> dir_less(#[trigger] sorted[i], #[trigger] sorted[j])
            &&& forall|i: int| 0 <= i < sorted.len() ==> #[trigger] sorted[i] == dir_view(sorted[i].text)
            &&& forall|t: Seq<char>| strs(directories@).contains(t) <==> exists|i: int| 0 <= i < sorted.len() && (#[trigger] sorted[i]).text == t
            &&& strs(r@) == kept_dirs(sorted, strs(plain_dirs@)).map_values(|d: DirView| d.text)
        },
{
    // Order the directories for consideration.
    let ghost texts = strs(directories@);
    let mut order: Vec<Dir> = Vec::new();
    let mut i: usize = 0;
    while i < directories.len()
        invariant
            i <= directories.len(),
            texts == strs(directories@),
            texts.no_duplicates(),
            forall|a: int, b: int| 0 <= a < b < order.len() ==> dir_less(#[trigger] dirs_of(order@)[a], #[trigger] dirs_of(order@)[b]),
            forall|a: int| 0 <= a < order.len() ==> #[trigger] dirs_of(order@)[a] == dir_view(dirs_of(order@)[a].text),
            forall|t: Seq<char>| texts.take(i as int).contains(t) <==> exists|a: int| 0 <= a < order.len() && (#[trigger] dirs_of(order@)[a]).text == t,
        decreases directories.len() - i,
    {
        let d = describe(&directories[i]);
        let ghost x = dir_of(d);
        let ghost os = dirs_of(order@);
        assert(x.text == texts[i as int]);
        // `x` is new: no placed directory has its text.
        assert forall|a: int| 0 <= a < os.len() implies (#[trigger] os[a]).text != x.text by {
            if os[a].text == x.text {
                assert(texts.take(i as int).contains(x.text));
                let m = choose|m: int| 0 <= m < texts.take(i as int).len() && #[trigger] texts.take(i as int)[m] == x.text;
                assert(texts[m] == texts[i as int]);
            }
        }
        let mut pos: usize = 0;
        while pos < order.len() && dir_before(&order[pos], &d)
            invariant
                pos <= order.len(),
                os == dirs_of(order@),
                x == dir_of(d),
                forall|k: int| 0 <= k < pos ==> dir_less(#[trigger] os[k], x),
            decreases order.len() - pos,
        {
            pos = pos + 1;
        }
        assert forall|k: int| pos <= k < os.len() implies dir_less(x, #[trigger] os[k]) by {
            lemma_dir_order(os[pos as int], x, os[k]);
            lemma_dir_order(x, os[pos as int], os[k]);
            if k > pos {
                assert(dir_less(os[pos as int], os[k]));
            }
        }
        order.insert(pos, d);
        let ghost ns = dirs_of(order@);
        assert(ns =~= os.insert(pos as int, x));
        assert forall|a: int, b: int| 0 <= a < b < ns.len() implies dir_less(#[trigger] ns[a], #[trigger] ns[b]) by {
            if b < pos {
            } else if a > pos {
                assert(ns[a] == os[a - 1]);
                assert(ns[b] == os[b - 1]);
            } else if a == pos {
                assert(ns[b] == os[b - 1]);
            } else if b == pos {
            } else {
                assert(ns[b] == os[b - 1]);
                lemma_dir_order(os[a], x, os[b - 1]);
            }
        }
        assert forall|a: int| 0 <= a < ns.len() implies #[trigger] ns[a] == dir_view(ns[a].text) by {
            if a < pos {
                assert(ns[a] == os[a]);
            } else if a > pos {
                assert(ns[a] == os[a - 1]);
            }
        }
        assert forall|t: Seq<char>| #[trigger] texts.take(i + 1).contains(t) <==> exists|a: int| 0 <= a < ns.len() && (#[trigger] ns[a]).text == t by {
            assert(texts.take(i + 1) == texts.take(i as int).push(texts[i as int]));
            if texts.take(i + 1).contains(t) {
                let m = choose|m: int| 0 <= m < texts.take(i + 1).len() && #[trigger] texts.take(i + 1)[m] == t;
                if m == i {
                    assert(ns[pos as int].text == t);
                } else {
                    assert(texts.take(i as int)[m] == t);
                    assert(texts.take(i as int).contains(t));
                    let a = choose|a: int| 0 <= a < os.len() && (#[trigger] os[a]).text == t;
                    if a < pos {
                        assert(ns[a] == os[a]);
                    } else {
                        assert(ns[a + 1] == os[a]);
                    }
                }
            }
            if exists|a: int| 0 <= a < ns.len() && (#[trigger] ns[a]).text == t {
                let a = choose|a: int| 0 <= a < ns.len() && (#[trigger] ns[a]).text == t;
                if a == pos {
                    assert(texts.take(i + 1)[i as int] == t);
                } else {
                    let b = if a < pos { a } else { a - 1 };
                    assert(os[b].text == t);
                    assert(texts.take(i as int).contains(t));
                    let m = choose|m: int| 0 <= m < texts.take(i as int).len() && #[trigger] texts.take(i as int)[m] == t;
                    assert(texts.take(i + 1)[m] == t);
                }
            }
        }
        i = i + 1;
    }
    assert(texts.take(directories.len() as int) == texts);
    // Keep each unless a kept one covers it.
    let ghost sorted = dirs_of(order@);
    let mut kept: Vec<Dir> = Vec::new();
    let mut result: Vec<String> = Vec::new();
    let mut j: usize = 0;
    while j < order.len()
        invariant
            j <= order.len(),
            sorted == dirs_of(order@),
            dirs_of(kept@) == kept_dirs(sorted.take(j as int), strs(plain_dirs@)),
            strs(result@) == dirs_of(kept@).map_values(|d: DirView| d.text),
        decreases order.len() - j,
    {
        let ghost ks = dirs_of(kept@);
        assert(sorted.take(j + 1).drop_last() == sorted.take(j as int));
        assert(sorted.take(j + 1).last() == sorted[j as int]);
        let mut covered = false;
        let mut k: usize = 0;
        while k < kept.len()
            invariant
                k <= kept.len(),
                ks == dirs_of(kept@),
                j < order.len(),
                sorted == dirs_of(order@),
                covered == exists|m: int| 0 <= m < k && covers(#[trigger] ks[m], sorted[j as int], strs(plain_dirs@)),
            decreases kept.len() - k,
        {
            assert(ks[k as int] == dir_of(kept@[k as int]));
            assert(sorted[j as int] == dir_of(order@[j as int]));
            if covers_dir(&kept[k], &order[j], plain_dirs) {
                covered = true;
            }
            k = k + 1;
        }
        if !covered {
            let d = &order[j];
            let copy = Dir { text: d.text.clone(), absolute: d.absolute, parts: copy_parts(&d.parts) };
            let ghost rb = strs(result@);
            result.push(d.text.clone());
            kept.push(copy);
            assert(dirs_of(kept@) =~= ks.push(sorted[j as int]));
            assert(strs(result@) =~= rb.push(sorted[j as int].text));
            assert(dirs_of(kept@).map_values(|d: DirView| d.text) =~= ks.map_values(|d: DirView| d.text).push(sorted[j as int].text));
        }
        j = j + 1;
    }
    assert(sorted.take(order.len() as int) == sorted);
    result
}

fn copy_parts(parts: &Vec<Vec<char>>) -> (r: Vec<Vec<char>>)
    ensures
        views(r@) == views(parts@),
{
    let mut out: Vec<Vec<char>> = Vec::new();
    let mut i: usize = 0;
    while i < parts.len()
        invariant
            i <= parts.len(),
            views(out@) == views(parts@).take(i as int),
        decreases parts.len() - i,
    {
        let ghost before = views(out@);
        out.push(copy_chars(&parts[i]));
        assert(views(out@) =~= before.push(views(parts@)[i as int]));
        assert(views(parts@).take(i + 1) =~= views(parts@).take(i as int).push(views(parts@)[i as int]));
        i = i + 1;
    }
    assert(views(parts@).take(parts.len() as int) == views(parts@));
    out
}

/// Whether `d` is the name manifest of a directory whose walk found `entries`.
pub open spec fn is_manifest_of(d: DigestView, entries: Seq<(Seq<char>, Seq<char>)>) -> bool {
    exists|sorted: Seq<Seq<char>>| {
        &&& forall|i: int, j: int| 0 <= i < j < sorted.len() ==> text_less(#[trigger] sorted[i], #[trigger] sorted[j])
        &&& sorted.to_set() == includable_paths(entries)
        &&& d == names_digest(sorted)
    }
}

/// Whether names are strictly ordered as text.
pub open spec fn strictly_ordered(s: Seq<Seq<char>>) -> bool {
    forall|i: int, j: int| 0 <= i < j < s.len() ==> text_less(#[trigger] s[i], #[trigger] s[j])
}

proof fn lemma_ordered_unique(a: Seq<Seq<char>>, b: Seq<Seq<char>>)
    requires
        strictly_ordered(a),
        strictly_ordered(b),
        a.to_set() == b.to_set(),
    ensures
        a == b,
    decreases a.len(),
{
    if a.len() == 0 {
        if b.len() > 0 {
            assert(b.to_set().contains(b[0]));
        }
    } else if b.len() == 0 {
        assert(a.to_set().contains(a[0]));
    } else {
        assert(a.to_set().contains(a[0]));
        assert(b.to_set().contains(b[0]));
        let i = choose|i: int| 0 <= i < b.len() && #[trigger] b[i] == a[0];
        let j = choose|j: int| 0 <= j < a.len() && #[trigger] a[j] == b[0];
        if i > 0 {
            lemma_text_order(b[0], a[0], a[0]);
            if j > 0 {
                assert(text_less(a[0], a[j]));
                lemma_text_order(a[0], b[0], a[0]);
            }
        }
        assert(a[0] == b[0]) by {
            if i > 0 {
                assert(text_less(b[0], b[i]));
                if j > 0 {
                    assert(text_less(a[0], a[j]));
                    lemma_text_order(a[0], b[0], a[0]);
                }
            }
        }
        let ra = a.drop_first();
        let rb = b.drop_first();
        assert forall|x: Seq<char>| ra.to_set().contains(x) <==> rb.to_set().contains(x) by {
            if ra.to_set().contains(x) {
                let k = choose|k: int| 0 <= k < ra.len() && #[trigger] ra[k] == x;
                assert(a[k + 1] == x);
                assert(a.to_set().contains(x));
                assert(b.to_set().contains(x));
                let m = choose|m: int| 0 <= m < b.len() && #[trigger] b[m] == x;
                assert(text_less(a[0], a[k + 1]));
                lemma_text_order(x, x, x);
                assert(m != 0);
                assert(rb[m - 1] == x);
            }
            if rb.to_set().contains(x) {
                let k = choose|k: int| 0 <= k < rb.len() && #[trigger] rb[k] == x;
                assert(b[k + 1] == x);
                assert(b.to_set().contains(x));
                assert(a.to_set().contains(x));
                let m = choose|m: int| 0 <= m < a.len() && #[trigger] a[m] == x;
                assert(text_less(b[0], b[k + 1]));
                lemma_text_order(x, x, x);
                assert(m != 0);
                assert(ra[m - 1] == x);
            }
        }
        assert(ra.to_set() =~= rb.to_set());
        assert forall|p: int, q: int| 0 <= p < q < ra.len() implies text_less(#[trigger] ra[p], #[trigger] ra[q]) by {
            assert(ra[p] == a[p + 1] && ra[q] == a[q + 1]);
        }
        assert forall|p: int, q: int| 0 <= p < q < rb.len() implies text_less(#[trigger] rb[p], #[trigger] rb[q]) by {
            assert(rb[p] == b[p + 1] && rb[q] == b[q + 1]);
        }
        lemma_ordered_unique(ra, rb);
        assert(a == seq![a[0]] + ra);
        assert(b == seq![b[0]] + rb);
    }
}

/// A directory's manifest depends on its includable names alone: entries
/// that could never be included, such as objects, dependency lists or
/// archives, leave it as it was.
pub proof fn lemma_manifest_ignores_unincludable(
    before: DigestView,
    after: DigestView,
    entries: Seq<(Seq<char>, Seq<char>)>,
    extra: Seq<(Seq<char>, Seq<char>)>,
)
    requires
        is_manifest_of(before, entries),
        is_manifest_of(after, entries + extra),
        forall|k: int| 0 <= k < extra.len() ==> !is_includable_name(#[trigger] extra[k].1),
    ensures
        before == after,
{
    let all = entries + extra;
    assert forall|p: Seq<char>| includable_paths(all).contains(p) <==> includable_paths(entries).contains(p) by {
        if includable_paths(all).contains(p) {
            let i = choose|i: int| 0 <= i < all.len() && all[i].0 == p && is_includable_name(#[trigger] all[i].1);
            if i >= entries.len() {
                assert(all[i] == extra[i - entries.len()]);
            } else {
                assert(all[i] == entries[i]);
            }
        }
        if includable_paths(entries).contains(p) {
            let i = choose|i: int| 0 <= i < entries.len() && entries[i].0 == p && is_includable_name(#[trigger] entries[i].1);
            assert(all[i] == entries[i]);
        }
    }
    assert(includable_paths(all) =~= includable_paths(entries));
    let a = choose|sorted: Seq<Seq<char>>| {
        &&& forall|i: int, j: int| 0 <= i < j < sorted.len() ==> text_less(#[trigger] sorted[i], #[trigger] sorted[j])
        &&& sorted.to_set() == includable_paths(entries)
        &&& before == names_digest(sorted)
    };
    let b = choose|sorted: Seq<Seq<char>>| {
        &&& forall|i: int, j: int| 0 <= i < j < sorted.len() ==> text_less(#[trigger] sorted[i], #[trigger] sorted[j])
        &&& sorted.to_set() == includable_paths(all)
        &&& after == names_digest(sorted)
    };
    lemma_ordered_unique(a, b);
}

/// The includable names each listing contributes to the shared budget.
pub open spec fn listing_counts(listings: Seq<(String, Vec<(String, String)>)>) -> Seq<nat> {
    listings.map_values(|l: (String, Vec<(String, String)>)| includable_count(entry_texts(l.1@)))
}

/// The budget spent by the first `n` listings.
pub open spec fn spent(counts: Seq<nat>, n: int) -> nat
    decreases n,
{
    if n <= 0 || n > counts.len() {
        0
    } else {
        spent(counts, n - 1) + counts[n - 1]
    }
}

/// Whether every listing with an includable name stays within the budget
/// that all manifests of one compilation share.
pub open spec fn snapshot_fits(counts: Seq<nat>) -> bool {
    forall|k: int| 0 <= k < counts.len() ==> counts[k] == 0 || #[trigger] spent(counts, k + 1) <= MAX_MANIFEST_ENTRIES
}

/// Digest the includable names in each directory, reading no file contents.
///
/// `listings` holds, for each directory that [`minimal_manifest_directories`]
/// kept, the directory and the `(relative path, file name)` pairs a walk
/// beneath it found. Taken once before the compiler runs and again before
/// publishing, the snapshot detects a header that appeared in a search
/// directory while the compilation was in flight.
pub fn manifest_snapshot(listings: &Vec<(String, Vec<(String, String)>)>) -> (r: Result<Vec<(String, CacheDigest)>, CcBypassReason>)
    requires
        forall|l: int, i: int, j: int| 0 <= l < listings.len() && 0 <= i < j < listings@[l].1.len()
            ==> (#[trigger] listings@[l].1@[i]).0@ != (#[trigger] listings@[l].1@[j]).0@,
    ensures
        r is Ok <==> snapshot_fits(listing_counts(listings@)),
        r matches Err(e) ==> e@ == BypassView::TooManyInputs,
        r matches Ok(v) ==> {
            &&& v.len() == listings.len()
            &&& forall|i: int| 0 <= i < v.len() ==> (#[trigger] v@[i]).0@ == listings@[i].0@
                && is_manifest_of(v@[i].1@, entry_texts(listings@[i].1@))
        },
{
    let ghost counts = listing_counts(listings@);
    let mut budget: usize = 0;
    let mut out: Vec<(String, CacheDigest)> = Vec::new();
    let mut i: usize = 0;
    while i < listings.len()
        invariant
            i <= listings.len(),
            counts == listing_counts(listings@),
            budget == spent(counts, i as int),
            forall|k: int| 0 <= k < i ==> counts[k] == 0 || #[trigger] spent(counts, k + 1) <= MAX_MANIFEST_ENTRIES,
            forall|l: int, a: int, b: int| 0 <= l < listings.len() && 0 <= a < b < listings@[l].1.len()
                ==> (#[trigger] listings@[l].1@[a]).0@ != (#[trigger] listings@[l].1@[b]).0@,
            out.len() == i,
            forall|k: int| 0 <= k < i ==> (#[trigger] out@[k]).0@ == listings@[k].0@
                && is_manifest_of(out@[k].1@, entry_texts(listings@[k].1@)),
        decreases listings.len() - i,
    {
        assert(counts[i as int] == includable_count(entry_texts(listings@[i as int].1@)));
        let entries = &listings[i].1;
        assert forall|a: int, b: int| 0 <= a < b < entries.len() implies (#[trigger] entries@[a]).0@ != (#[trigger] entries@[b]).0@ by {
            assert(listings@[i as int].1@[a] == entries@[a]);
            assert(listings@[i as int].1@[b] == entries@[b]);
        }
        match include_manifest(entries, &mut budget) {
            Ok(d) => {
                out.push((listings[i].0.clone(), d));
                assert(out@[i as int] == (listings@[i as int].0, d));
            },
            Err(e) => {
                assert(!snapshot_fits(counts)) by {
                    assert(!(counts[i as int] == 0 || spent(counts, i + 1) <= MAX_MANIFEST_ENTRIES));
                }
                return Err(e);
            },
        }
        i = i + 1;
    }
    Ok(out)
}

} // verus!
