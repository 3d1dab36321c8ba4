//! Where Cargo would read a manifest for a command line, and the command
//! that asks Cargo for its resolved roots.
use vstd::prelude::*;
use crate::text::{chars_of, eq_lit, string_of, views};
use crate::path::{is_absolute, components, join, components_of, join_parts};
use crate::cargo::args::{
    strs, cargo_args, flag_value_of, joined_path, directory_option_dir_of, install_source, forwarded,
    names, cargo_arguments, flag_value, absolute, directory_option_dir, forwarded_flags,
};

verus! {

/// A path and each of its parents, nearest first, as `Path::ancestors`
/// walks them: the path itself, then the path with one component fewer,
/// down to the root (or the empty path, for a relative one).
pub open spec fn ancestor_paths(p: Seq<char>) -> Seq<Seq<char>> {
    let parts = components(p);
    Seq::new(parts.len() + 1, |k: int| if k == 0 {
        p
    } else if is_absolute(p) {
        "/"@ + join(parts.take(parts.len() - k))
    } else {
        join(parts.take(parts.len() - k))
    })
}

/// The manifest each ancestor of `dir` would hold, nearest first.
pub open spec fn ancestor_manifests(dir: Seq<char>) -> Seq<Seq<char>> {
    ancestor_paths(dir).map_values(|d: Seq<char>| joined_path(d, "Cargo.toml"@))
}

/// The manifests whose presence decides whether Cargo has one to work
/// from: the source's own for `install --path`, the one `--manifest-path`
/// names, or else one in the directory Cargo is pointed at or any parent.
pub open spec fn manifest_candidates_of(args: Seq<Seq<char>>, working_dir: Seq<char>) -> Seq<Seq<char>> {
    let a = cargo_args(args);
    match install_source(a, working_dir) {
        Some(source) => seq![joined_path(source, "Cargo.toml"@)],
        None => {
            let dir = directory_option_dir_of(a, working_dir);
            match flag_value_of(a, "--manifest-path"@) {
                Some(manifest) => seq![joined_path(dir, manifest)],
                None => ancestor_manifests(dir),
            }
        },
    }
}

/// Whether any of `candidates` is among the files that exist.
pub open spec fn any_exists(candidates: Seq<Seq<char>>, existing: Seq<Seq<char>>) -> bool {
    exists|i: int| 0 <= i < candidates.len() && existing.contains(#[trigger] candidates[i])
}

pub(crate) fn ancestors_of(p: &str) -> (r: Vec<String>)
    ensures
        strs(r@) == ancestor_paths(p@),
{
    let text = chars_of(p);
    let parts = components_of(&text);
    let ghost pv = views(parts@);
    let absolute_path = text.len() > 0 && text[0] == '/';
    let n = parts.len();
    let mut out: Vec<String> = Vec::new();
    out.push(String::from_str(p));
    let mut remaining: usize = n;
    while remaining > 0
        invariant
            remaining <= n,
            n == parts.len(),
            pv == views(parts@),
            pv == components(p@),
            text@ == p@,
            absolute_path == is_absolute(p@),
            strs(out@) == ancestor_paths(p@).take(n - remaining + 1),
        decreases remaining,
    {
        let keep = remaining - 1;
        let ghost k: int = n - remaining + 1;
        let mut prefix: Vec<Vec<char>> = Vec::new();
        let mut j: usize = 0;
        while j < keep
            invariant
                j <= keep <= n,
                n == parts.len(),
                pv == views(parts@),
                views(prefix@) == pv.take(j as int),
            decreases keep - j,
        {
            let ghost before = views(prefix@);
            assert(pv[j as int] == parts@[j as int]@);
            prefix.push(crate::text::copy_chars(&parts[j]));
            assert(views(prefix@) =~= before.push(pv[j as int]));
            assert(pv.take(j + 1) =~= pv.take(j as int).push(pv[j as int]));
            j = j + 1;
        }
        let joined = join_parts(&prefix);
        let path = if absolute_path {
            let mut rooted: Vec<char> = Vec::new();
            rooted.push('/');
            proof {
                reveal_strlit("/");
            }
            let whole = crate::text::concat_chars(&rooted, &joined);
            assert(rooted@ == "/"@);
            string_of(&whole)
        } else {
            string_of(&joined)
        };
        let ghost before = strs(out@);
        out.push(path);
        assert(strs(out@) =~= before.push(path@));
        assert(ancestor_paths(p@).take(k + 1) =~= ancestor_paths(p@).take(k).push(ancestor_paths(p@)[k]));
        remaining = remaining - 1;
    }
    assert(ancestor_paths(p@).take(n + 1) == ancestor_paths(p@));
    out
}

pub(crate) fn manifests_under(dir: &str) -> (r: Vec<String>)
    ensures
        strs(r@) == ancestor_manifests(dir@),
{
    let ancestors = ancestors_of(dir);
    let ghost av = strs(ancestors@);
    let mut out: Vec<String> = Vec::new();
    let mut i: usize = 0;
    while i < ancestors.len()
        invariant
            i <= ancestors.len(),
            av == strs(ancestors@),
            av == ancestor_paths(dir@),
            strs(out@) == ancestor_manifests(dir@).take(i as int),
        decreases ancestors.len() - i,
    {
        let manifest = absolute(ancestors[i].as_str(), "Cargo.toml");
        let ghost before = strs(out@);
        out.push(manifest);
        assert(strs(out@) =~= before.push(manifest@));
        assert(ancestor_manifests(dir@).take(i + 1) =~= ancestor_manifests(dir@).take(i as int).push(ancestor_manifests(dir@)[i as int]));
        i = i + 1;
    }
    assert(ancestor_manifests(dir@).take(ancestors.len() as int) == ancestor_manifests(dir@));
    out
}

/// The manifests whose presence decides whether Cargo has one to work from,
/// see [`manifest_candidates_of`]. The caller checks which exist.
pub fn manifest_candidates(arguments: &[String], working_dir: &str) -> (r: Vec<String>)
    ensures
        strs(r@) == manifest_candidates_of(strs(arguments@), working_dir@),
{
    let a = cargo_arguments(arguments);
    let ghost av = cargo_args(strs(arguments@));
    assert(strs(a@) == av);
    match crate::cargo::args::install_source_of(a, working_dir) {
        Some(source) => {
            let manifest = absolute(source.as_str(), "Cargo.toml");
            let mut out: Vec<String> = Vec::new();
            out.push(manifest);
            assert(strs(out@) =~= seq![manifest@]);
            out
        },
        None => {
            let dir = directory_option_dir(a, working_dir);
            match flag_value(a, "--manifest-path") {
                Some(manifest) => {
                    let path = absolute(dir.as_str(), manifest.as_str());
                    let mut out: Vec<String> = Vec::new();
                    out.push(path);
                    assert(strs(out@) =~= seq![path@]);
                    out
                },
                None => manifests_under(dir.as_str()),
            }
        },
    }
}

fn is_listed(existing: &[String], path: &String) -> (r: bool)
    ensures
        r == strs(existing@).contains(path@),
{
    let mut i: usize = 0;
    while i < existing.len()
        invariant
            i <= existing.len(),
            forall|j: int| 0 <= j < i ==> strs(existing@)[j] != path@,
        decreases existing.len() - i,
    {
        if existing[i] == *path {
            assert(strs(existing@)[i as int] == path@);
            return true;
        }
        i = i + 1;
    }
    false
}

/// Whether Cargo has a manifest to work from here, given which of the
/// [`manifest_candidates`] exist as files.
///
/// Without one there is no package to compile, no target directory to
/// place, and nothing for a probe to report.
pub fn manifest_in_scope(arguments: &[String], working_dir: &str, existing: &[String]) -> (r: bool)
    ensures
        r == any_exists(manifest_candidates_of(strs(arguments@), working_dir@), strs(existing@)),
{
    let candidates = manifest_candidates(arguments, working_dir);
    let ghost cv = strs(candidates@);
    let mut i: usize = 0;
    while i < candidates.len()
        invariant
            i <= candidates.len(),
            cv == strs(candidates@),
            cv == manifest_candidates_of(strs(arguments@), working_dir@),
            forall|j: int| 0 <= j < i ==> !strs(existing@).contains(#[trigger] cv[j]),
        decreases candidates.len() - i,
    {
        if is_listed(existing, &candidates[i]) {
            assert(cv[i as int] == candidates@[i as int]@);
            return true;
        }
        i = i + 1;
    }
    false
}

/// The first of `dirs` whose manifest is among the files that exist.
pub open spec fn first_with_manifest(dirs: Seq<Seq<char>>, existing: Seq<Seq<char>>) -> Option<Seq<char>>
    decreases dirs.len(),
{
    if dirs.len() == 0 {
        None
    } else if existing.contains(joined_path(dirs[0], "Cargo.toml"@)) {
        Some(dirs[0])
    } else {
        first_with_manifest(dirs.drop_first(), existing)
    }
}

/// The nearest directory at or above `start` that holds a manifest, given
/// which of the manifests [`ancestor_manifests`] names exist; else `start`.
pub fn workspace_root(start: &str, existing: &[String]) -> (r: String)
    ensures
        r@ == match first_with_manifest(ancestor_paths(start@), strs(existing@)) {
            Some(dir) => dir,
            None => start@,
        },
{
    let dirs = ancestors_of(start);
    let ghost dv = strs(dirs@);
    let mut i: usize = 0;
    assert(dv.skip(0) == dv);
    while i < dirs.len()
        invariant
            i <= dirs.len(),
            dv == strs(dirs@),
            dv == ancestor_paths(start@),
            first_with_manifest(dv, strs(existing@)) == first_with_manifest(dv.skip(i as int), strs(existing@)),
        decreases dirs.len() - i,
    {
        let manifest = absolute(dirs[i].as_str(), "Cargo.toml");
        assert(dv.skip(i as int)[0] == dirs@[i as int]@);
        assert(dv.skip(i as int).drop_first() == dv.skip(i + 1));
        if is_listed(existing, &manifest) {
            return dirs[i].clone();
        }
        i = i + 1;
    }
    String::from_str(start)
}

/// The probe command's arguments, in the order it runs them: Cargo's global
/// flags, then `metadata`, then the options that pick the manifest.
pub open spec fn probe_args(args: Seq<Seq<char>>) -> Seq<Seq<char>> {
    forwarded(args, seq!["-C"@, "--config"@, "-Z"@])
        + seq!["metadata"@, "--no-deps"@, "--format-version"@, "1"@]
        + match flag_value_of(args, "--manifest-path"@) {
            Some(m) => seq!["--manifest-path"@, m],
            None => Seq::empty(),
        }
        + args.filter(|a: Seq<char>| a == "--offline"@ || a == "--frozen"@ || a == "--locked"@)
}

fn push_literal(out: &mut Vec<String>, text: &str)
    ensures
        strs(final(out)@) == strs(old(out)@).push(text@),
{
    let ghost before = strs(out@);
    out.push(String::from_str(text));
    assert(strs(out@) =~= before.push(text@));
}

/// The arguments of the probe that asks Cargo for its resolved roots, see
/// [`probe_args`].
pub fn probe_arguments(arguments: &[String]) -> (r: Vec<String>)
    ensures
        strs(r@) == probe_args(strs(arguments@)),
{
    let ghost all = strs(arguments@);
    let flags: [&str; 3] = ["-C", "--config", "-Z"];
    assert(names(flags@) =~= seq!["-C"@, "--config"@, "-Z"@]);
    let mut out = forwarded_flags(arguments, &flags);
    let ghost head = strs(out@);
    push_literal(&mut out, "metadata");
    push_literal(&mut out, "--no-deps");
    push_literal(&mut out, "--format-version");
    push_literal(&mut out, "1");
    assert(strs(out@) =~= head + seq!["metadata"@, "--no-deps"@, "--format-version"@, "1"@]);
    let ghost with_metadata = strs(out@);
    match flag_value(arguments, "--manifest-path") {
        Some(manifest) => {
            push_literal(&mut out, "--manifest-path");
            let ghost before = strs(out@);
            out.push(manifest);
            assert(strs(out@) =~= before.push(manifest@));
        },
        None => {},
    }
    let ghost f = |a: Seq<char>| a == "--offline"@ || a == "--frozen"@ || a == "--locked"@;
    let ghost mid = strs(out@);
    let mut i: usize = 0;
    while i < arguments.len()
        invariant
            i <= arguments.len(),
            all == strs(arguments@),
            f == (|a: Seq<char>| a == "--offline"@ || a == "--frozen"@ || a == "--locked"@),
            strs(out@) == mid + all.take(i as int).filter(f),
        decreases arguments.len() - i,
    {
        let text = chars_of(arguments[i].as_str());
        let keep = eq_lit(&text, "--offline") || eq_lit(&text, "--frozen") || eq_lit(&text, "--locked");
        let ghost before = strs(out@);
        assert(all[i as int] == text@);
        assert(f(all[i as int]) == keep);
        if keep {
            out.push(arguments[i].clone());
            assert(strs(out@) =~= before.push(all[i as int]));
        }
        assert(all.take(i + 1).drop_last() == all.take(i as int));
        assert(all.take(i + 1).last() == all[i as int]);
        assert(all.take(i + 1).filter(f) == (if keep { all.take(i as int).filter(f).push(all[i as int]) } else { all.take(i as int).filter(f) })) by {
            reveal_with_fuel(Seq::<Seq<char>>::filter, 1);
        }
        i = i + 1;
    }
    assert(all.take(arguments.len() as int) == all);
    out
}

} // verus!
