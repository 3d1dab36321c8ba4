//! What a remembered answer of the roots probe depends on: the files Cargo
//! reads on the way from the invocation directory to the workspace root, and
//! whether the command line reaches files this list cannot name.
use vstd::prelude::*;
use crate::text::{chars_of, eq_lit, split_once, split_once_char};
use crate::path::components;
use crate::cargo::args::{strs, flag_value_of, joined_path, invocation_dir_of, config_values, flag_value, absolute, invocation_dir, config_arguments};
use crate::cargo::scope::{ancestor_paths, ancestor_manifests, ancestors_of, manifests_under};
use crate::cargo::resolve::{trimmed, trim_chars};

verus! {

/// The path less its last component; none for the root or the empty path.
pub open spec fn parent_of(p: Seq<char>) -> Option<Seq<char>> {
    if components(p).len() == 0 {
        None
    } else {
        Some(ancestor_paths(p)[1])
    }
}

/// Where Cargo starts looking for the workspace: the directory of the
/// manifest `--manifest-path` names, or the invocation directory.
pub open spec fn manifest_start_of(args: Seq<Seq<char>>, invocation: Seq<char>) -> Seq<char> {
    match flag_value_of(args, "--manifest-path"@) {
        Some(manifest) => match parent_of(joined_path(invocation, manifest)) {
            Some(dir) => dir,
            None => invocation,
        },
        None => invocation,
    }
}

/// The configuration files Cargo reads from every `.cargo` directory above
/// the invocation directory, nearest first, `config.toml` before `config`.
pub open spec fn project_configs(invocation: Seq<char>) -> Seq<Seq<char>> {
    let dirs = ancestor_paths(invocation);
    Seq::new(2 * dirs.len(), |k: int| joined_path(
        joined_path(dirs[k / 2], ".cargo"@),
        if k % 2 == 0 { "config.toml"@ } else { "config"@ },
    ))
}

/// The configuration files of Cargo's home directory, where there is one.
pub open spec fn home_configs(home: Option<Seq<char>>) -> Seq<Seq<char>> {
    match home {
        Some(h) => seq![joined_path(h, "config.toml"@), joined_path(h, "config"@)],
        None => Seq::empty(),
    }
}

/// The `--config` values that name files, taken against the invocation
/// directory: those among `existing`.
pub open spec fn cli_config_files(args: Seq<Seq<char>>, invocation: Seq<char>, existing: Seq<Seq<char>>) -> Seq<Seq<char>> {
    config_values(args).map_values(|v: Seq<char>| joined_path(invocation, v)).filter(|p: Seq<char>| existing.contains(p))
}

/// Every file a probe's answer depends on, present or absent: the Cargo
/// binary, the manifest at each ancestor of where Cargo starts looking for
/// the workspace, the configuration of each ancestor of the invocation
/// directory and of Cargo's home, and the configuration files the command
/// line names (those among `existing`).
pub open spec fn watched_of(cargo: Seq<char>, args: Seq<Seq<char>>, working_dir: Seq<char>, home: Option<Seq<char>>, existing: Seq<Seq<char>>) -> Seq<Seq<char>> {
    let invocation = invocation_dir_of(args, working_dir);
    seq![cargo] + ancestor_manifests(manifest_start_of(args, invocation)) + project_configs(invocation) + home_configs(home)
        + cli_config_files(args, invocation, existing)
}

/// Whether a `--config` value is an inline `include`.
pub open spec fn is_cli_include(value: Seq<char>) -> bool {
    match split_once(value, '=') {
        Some((key, _)) => trimmed(key) == "include"@,
        None => false,
    }
}

fn append(out: &mut Vec<String>, more: Vec<String>)
    ensures
        strs(final(out)@) == strs(old(out)@) + strs(more@),
{
    let ghost start = strs(out@);
    let mut i: usize = 0;
    let ghost all = strs(more@);
    while i < more.len()
        invariant
            i <= more.len(),
            all == strs(more@),
            strs(out@) == start + all.take(i as int),
        decreases more.len() - i,
    {
        let ghost before = strs(out@);
        out.push(more[i].clone());
        assert(strs(out@) =~= before.push(all[i as int]));
        assert(all.take(i + 1) =~= all.take(i as int).push(all[i as int]));
        i = i + 1;
    }
    assert(all.take(more.len() as int) == all);
}

fn parent(p: &str) -> (r: Option<String>)
    ensures
        match parent_of(p@) {
            Some(d) => r matches Some(x) && x@ == d,
            None => r is None,
        },
{
    let ancestors = ancestors_of(p);
    let ghost parts = components(p@);
    assert(strs(ancestors@).len() == parts.len() + 1);
    if ancestors.len() > 1 {
        assert(strs(ancestors@)[1] == ancestors@[1]@);
        Some(ancestors[1].clone())
    } else {
        None
    }
}

/// Where Cargo starts looking for the workspace, see [`manifest_start_of`].
pub fn manifest_start(arguments: &[String], invocation: &str) -> (r: String)
    ensures
        r@ == manifest_start_of(strs(arguments@), invocation@),
{
    match flag_value(arguments, "--manifest-path") {
        Some(manifest) => {
            let path = absolute(invocation, manifest.as_str());
            match parent(path.as_str()) {
                Some(dir) => dir,
                None => String::from_str(invocation),
            }
        },
        None => String::from_str(invocation),
    }
}

fn project_config_files(invocation: &str) -> (r: Vec<String>)
    ensures
        strs(r@) == project_configs(invocation@),
{
    let dirs = ancestors_of(invocation);
    let ghost dv = strs(dirs@);
    let mut out: Vec<String> = Vec::new();
    let mut i: usize = 0;
    while i < dirs.len()
        invariant
            i <= dirs.len(),
            dv == strs(dirs@),
            dv == ancestor_paths(invocation@),
            strs(out@) == project_configs(invocation@).take(2 * i),
        decreases dirs.len() - i,
    {
        let dot_cargo = absolute(dirs[i].as_str(), ".cargo");
        let toml_file = absolute(dot_cargo.as_str(), "config.toml");
        let plain_file = absolute(dot_cargo.as_str(), "config");
        let ghost before = strs(out@);
        out.push(toml_file);
        out.push(plain_file);
        let ghost all = project_configs(invocation@);
        assert(dv[i as int] == dirs@[i as int]@);
        assert(all[2 * i] == toml_file@);
        assert(all[2 * i + 1] == plain_file@);
        assert(strs(out@) =~= before.push(toml_file@).push(plain_file@));
        assert(all.take(2 * (i + 1)) =~= all.take(2 * i).push(all[2 * i]).push(all[2 * i + 1]));
        i = i + 1;
    }
    assert(project_configs(invocation@).take(2 * dirs.len()) == project_configs(invocation@));
    out
}

fn cli_configs(arguments: &[String], invocation: &str, existing: &[String]) -> (r: Vec<String>)
    ensures
        strs(r@) == cli_config_files(strs(arguments@), invocation@, strs(existing@)),
{
    let values = config_arguments(arguments);
    let ghost vs = strs(values@);
    let ghost ev = strs(existing@);
    let ghost mapped = vs.map_values(|v: Seq<char>| joined_path(invocation@, v));
    let ghost keep = |p: Seq<char>| ev.contains(p);
    let mut out: Vec<String> = Vec::new();
    let mut i: usize = 0;
    while i < values.len()
        invariant
            i <= values.len(),
            vs == strs(values@),
            vs == config_values(strs(arguments@)),
            ev == strs(existing@),
            mapped == vs.map_values(|v: Seq<char>| joined_path(invocation@, v)),
            keep == (|p: Seq<char>| ev.contains(p)),
            strs(out@) == mapped.take(i as int).filter(keep),
        decreases values.len() - i,
    {
        let path = absolute(invocation, values[i].as_str());
        assert(mapped[i as int] == path@);
        let mut found = false;
        let mut j: usize = 0;
        while j < existing.len()
            invariant
                j <= existing.len(),
                ev == strs(existing@),
                found == exists|k: int| 0 <= k < j && ev[k] == path@,
            decreases existing.len() - j,
        {
            if existing[j] == path {
                assert(ev[j as int] == path@);
                found = true;
            }
            j = j + 1;
        }
        let ghost before = strs(out@);
        if found {
            out.push(path);
            assert(strs(out@) =~= before.push(path@));
        }
        assert(mapped.take(i + 1).drop_last() == mapped.take(i as int));
        assert(mapped.take(i + 1).last() == path@);
        assert(strs(out@) == mapped.take(i + 1).filter(keep)) by {
            reveal_with_fuel(Seq::<Seq<char>>::filter, 1);
        }
        i = i + 1;
    }
    assert(mapped.take(values.len() as int) == mapped);
    out
}

/// Every file a probe's answer depends on, see [`watched_of`]; `existing`
/// lists which of the command line's `--config` values name files.
pub fn watched_files(cargo: &str, arguments: &[String], working_dir: &str, cargo_home: Option<&str>, existing: &[String]) -> (r: Vec<String>)
    ensures
        strs(r@) == watched_of(cargo@, strs(arguments@), working_dir@,
            match cargo_home { Some(h) => Some(h@), None => None }, strs(existing@)),
{
    let invocation = invocation_dir(arguments, working_dir);
    let mut out: Vec<String> = Vec::new();
    out.push(String::from_str(cargo));
    assert(strs(out@) =~= seq![cargo@]);
    let start = manifest_start(arguments, invocation.as_str());
    append(&mut out, manifests_under(start.as_str()));
    append(&mut out, project_config_files(invocation.as_str()));
    let mut home: Vec<String> = Vec::new();
    match cargo_home {
        Some(h) => {
            home.push(absolute(h, "config.toml"));
            home.push(absolute(h, "config"));
        },
        None => {},
    }
    assert(strs(home@) =~= home_configs(match cargo_home { Some(h) => Some(h@), None => None }));
    append(&mut out, home);
    append(&mut out, cli_configs(arguments, invocation.as_str(), existing));
    out
}

/// Whether any `--config` value is an inline `include`, which names files a
/// remembered answer cannot watch.
pub fn cli_includes_files(arguments: &[String]) -> (r: bool)
    ensures
        r == exists|i: int| 0 <= i < config_values(strs(arguments@)).len()
            && is_cli_include(#[trigger] config_values(strs(arguments@))[i]),
{
    let values = config_arguments(arguments);
    let ghost vs = config_values(strs(arguments@));
    let mut i: usize = 0;
    while i < values.len()
        invariant
            i <= values.len(),
            strs(values@) == vs,
            vs == config_values(strs(arguments@)),
            forall|k: int| 0 <= k < i ==> !is_cli_include(#[trigger] vs[k]),
        decreases values.len() - i,
    {
        let text = chars_of(values[i].as_str());
        assert(vs[i as int] == text@);
        let inline = match split_once_char(&text, '=') {
            None => false,
            Some((key, _value)) => {
                let key = trim_chars(&key);
                eq_lit(&key, "include")
            },
        };
        if inline {
            return true;
        }
        i = i + 1;
    }
    false
}

} // verus!
