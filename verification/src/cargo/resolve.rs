//! Resolving one Cargo invocation: its workspace root, target directory and
//! prediction identity, from the command line, the environment, and what
//! Cargo reported or the filesystem shows.
use vstd::prelude::*;
use crate::text::{chars_of, eq_lit, string_of, split_once, split_once_char};
use crate::cargo::args::{
    strs, cargo_args, flag_value_of, joined_path, directory_option_dir_of, invocation_dir_of, install_source,
    config_values, cargo_arguments, path_install_dir, directory_option_dir, invocation_dir, target_dir_argument,
    absolute, config_arguments,
};
use crate::cargo::scope::{ancestor_paths, first_with_manifest, workspace_root};
use crate::cargo::identity::{identity_of, workspace_marker_of, build_identity};
use crate::cargo::invocation::CargoInvocation;

verus! {

/// `s` without leading and trailing spaces and tabs.
pub open spec fn trimmed(s: Seq<char>) -> Seq<char>
    decreases s.len(),
{
    if s.len() > 0 && (s[0] == ' ' || s[0] == '\t') {
        trimmed(s.drop_first())
    } else if s.len() > 0 && (s.last() == ' ' || s.last() == '\t') {
        trimmed(s.drop_last())
    } else {
        s
    }
}

/// Whether a `--config` value may set the target directory: it is a file
/// to load rather than `key=value`, or its key is `build.target-dir` or
/// `include`.
pub open spec fn config_value_may_set_target(value: Seq<char>) -> bool {
    match split_once(value, '=') {
        None => true,
        Some((key, _)) => trimmed(key) == "build.target-dir"@ || trimmed(key) == "include"@,
    }
}

/// Whether any `--config` on the command line may set the target directory.
pub open spec fn cli_may_set_target(args: Seq<Seq<char>>) -> bool {
    exists|i: int| 0 <= i < config_values(args).len() && config_value_may_set_target(#[trigger] config_values(args)[i])
}

pub(crate) fn trim_chars(s: &[char]) -> (r: Vec<char>)
    ensures
        r@ == trimmed(s@),
{
    let mut start: usize = 0;
    let mut end: usize = s.len();
    assert(s@.subrange(0, s.len() as int) == s@);
    while start < end && (s[start] == ' ' || s[start] == '\t')
        invariant
            start <= end == s.len(),
            trimmed(s@) == trimmed(s@.subrange(start as int, end as int)),
        decreases end - start,
    {
        assert(s@.subrange(start as int, end as int).drop_first() == s@.subrange(start + 1, end as int));
        start = start + 1;
    }
    while start < end && (s[end - 1] == ' ' || s[end - 1] == '\t')
        invariant
            start <= end <= s.len(),
            start < end ==> !(s@[start as int] == ' ' || s@[start as int] == '\t'),
            trimmed(s@) == trimmed(s@.subrange(start as int, end as int)),
        decreases end - start,
    {
        let ghost sub = s@.subrange(start as int, end as int);
        assert(sub.drop_last() == s@.subrange(start as int, end - 1));
        assert(sub[0] == s@[start as int]);
        end = end - 1;
    }
    let r = crate::text::slice(s, start, end);
    proof {
        let sub = s@.subrange(start as int, end as int);
        if sub.len() > 0 {
            assert(sub[0] == s@[start as int]);
            assert(sub.last() == s@[end - 1]);
        }
    }
    r
}

/// Whether the command line's `--config` values may set the target
/// directory, see [`cli_may_set_target`].
pub fn config_may_set_target_dir(arguments: &[String]) -> (r: bool)
    ensures
        r == cli_may_set_target(strs(arguments@)),
{
    let values = config_arguments(arguments);
    let ghost vs = config_values(strs(arguments@));
    let mut i: usize = 0;
    while i < values.len()
        invariant
            i <= values.len(),
            strs(values@) == vs,
            vs == config_values(strs(arguments@)),
            forall|k: int| 0 <= k < i ==> !config_value_may_set_target(#[trigger] vs[k]),
        decreases values.len() - i,
    {
        let text = chars_of(values[i].as_str());
        assert(vs[i as int] == text@);
        let may = match split_once_char(&text, '=') {
            None => true,
            Some((key, _value)) => {
                let key = trim_chars(&key);
                eq_lit(&key, "build.target-dir") || eq_lit(&key, "include")
            },
        };
        if may {
            return true;
        }
        i = i + 1;
    }
    false
}

/// The directory an invocation works from: where Cargo is pointed for a
/// path install, where `-C` points otherwise.
pub open spec fn working_from(args: Seq<Seq<char>>, working_dir: Seq<char>) -> Seq<char> {
    let a = cargo_args(args);
    if install_source(a, working_dir) is Some {
        directory_option_dir_of(a, working_dir)
    } else {
        invocation_dir_of(a, working_dir)
    }
}

/// The directory whose configuration files may set the target: a path
/// install's source, else the directory the invocation works from.
pub open spec fn config_dir_of(args: Seq<Seq<char>>, working_dir: Seq<char>) -> Seq<char> {
    match install_source(cargo_args(args), working_dir) {
        Some(source) => source,
        None => working_from(args, working_dir),
    }
}

/// The directory an invocation works from, see [`working_from`].
pub fn invocation_base(arguments: &[String], working_dir: &str) -> (r: String)
    ensures
        r@ == working_from(strs(arguments@), working_dir@),
{
    let a = cargo_arguments(arguments);
    match crate::cargo::args::install_source_of(a, working_dir) {
        Some(_) => directory_option_dir(a, working_dir),
        None => invocation_dir(a, working_dir),
    }
}

/// The directory whose configuration may set the target, see [`config_dir_of`].
pub fn config_base(arguments: &[String], working_dir: &str) -> (r: String)
    ensures
        r@ == config_dir_of(strs(arguments@), working_dir@),
{
    let a = cargo_arguments(arguments);
    match crate::cargo::args::install_source_of(a, working_dir) {
        Some(source) => source,
        None => invocation_base(arguments, working_dir),
    }
}

/// What Cargo's metadata probe reported: the workspace root, the target
/// directory and, from newer Cargo versions, the build directory.
#[derive(Debug, Clone, PartialEq, Eq)]
pub struct ReportedRoots {
    /// Reported workspace root.
    pub workspace_root: String,
    /// Reported target directory.
    pub target_dir: String,
    /// Reported intermediate build directory.
    pub build_dir: Option<String>,
}

/// The workspace root: the reported one, else the nearest directory at or
/// above where the invocation works from that holds a manifest among
/// `existing`, else that directory itself.
pub open spec fn resolved_root(args: Seq<Seq<char>>, working_dir: Seq<char>, reported: Option<Seq<char>>, existing: Seq<Seq<char>>) -> Seq<char> {
    match reported {
        Some(root) => root,
        None => {
            let base = working_from(args, working_dir);
            match first_with_manifest(ancestor_paths(base), existing) {
                Some(dir) => dir,
                None => base,
            }
        },
    }
}

/// The workspace root of an invocation, see [`resolved_root`]; `existing`
/// lists which manifests at or above the invocation's directory exist.
pub fn resolve_workspace_root(arguments: &[String], working_dir: &str, reported: &Option<ReportedRoots>, existing: &[String]) -> (r: String)
    ensures
        r@ == resolved_root(strs(arguments@), working_dir@, match reported { Some(x) => Some(x.workspace_root@), None => None::<Seq<char>> }, strs(existing@)),
{
    match reported {
        Some(roots) => roots.workspace_root.clone(),
        None => {
            let base = invocation_base(arguments, working_dir);
            workspace_root(base.as_str(), existing)
        },
    }
}

/// Whether a target-directory environment value is set to something.
pub open spec fn env_set(value: Option<Seq<char>>) -> bool {
    value matches Some(v) && v.len() > 0
}

/// The target directory: the command line's, else the reported one, else
/// the environment's, else `target` under the workspace root; relative
/// values are taken against where the invocation works from.
pub open spec fn resolved_target(args: Seq<Seq<char>>, working_dir: Seq<char>, env: Option<Seq<char>>, reported: Option<Seq<char>>, root: Seq<char>) -> Seq<char> {
    let base = working_from(args, working_dir);
    match flag_value_of(cargo_args(args), "--target-dir"@) {
        Some(flagged) => joined_path(base, flagged),
        None => match reported {
            Some(target) => target,
            None => if env_set(env) { joined_path(base, env.unwrap()) } else { joined_path(root, "target"@) },
        },
    }
}

/// Resolve one Cargo invocation from its command line, its working
/// directory, `CARGO_TARGET_DIR`, what Cargo reported (if it was asked), and
/// the facts a resolution reads from the machine:
///
/// - `existing`: which manifests at or above the invocation's directory
///   exist, consulted for the workspace root when nothing was reported;
/// - `config_sets_target`: whether `CARGO_BUILD_TARGET_DIR` is set or a
///   project or home configuration file may set the target directory;
/// - `lockfile`: the workspace root's `Cargo.lock`, where it has one;
/// - `os`, `arch`: the platform names that enter the build identity.
pub fn resolve_with_reported(
    arguments: &[String],
    working_dir: &str,
    target_dir_env: Option<&str>,
    reported: Option<ReportedRoots>,
    existing: &[String],
    config_sets_target: bool,
    lockfile: Option<&[u8]>,
    os: &str,
    arch: &str,
) -> (r: CargoInvocation)
    ensures
        ({
            let args = strs(arguments@);
            let env = match target_dir_env { Some(v) => Some(v@), None => None::<Seq<char>> };
            let root = resolved_root(args, working_dir@, match reported { Some(x) => Some(x.workspace_root@), None => None::<Seq<char>> }, strs(existing@));
            &&& r.workspace_root@ == root
            &&& r.target_dir@ == resolved_target(args, working_dir@, env, match reported { Some(x) => Some(x.target_dir@), None => None::<Seq<char>> }, root)
            &&& r.build_dir == match reported { Some(x) => x.build_dir, None => None::<String> }
            &&& r.target_dir_requested == (flag_value_of(cargo_args(args), "--target-dir"@) is Some || env_set(env)
                || config_sets_target || cli_may_set_target(cargo_args(args)))
            &&& r.build_identity@ == identity_of(workspace_marker_of(root, match lockfile { Some(b) => Some(b@), None => None::<Seq<u8>> }), os@, arch@)
        }),
{
    let a = cargo_arguments(arguments);
    let base = invocation_base(arguments, working_dir);
    let root = resolve_workspace_root(arguments, working_dir, &reported, existing);
    let flagged = target_dir_argument(a);
    let env_nonempty = match target_dir_env {
        Some(value) => !value.is_empty(),
        None => false,
    };
    let requested = flagged.is_some() || env_nonempty || config_sets_target || config_may_set_target_dir(a);
    let build_dir = match &reported {
        Some(roots) => roots.build_dir.clone(),
        None => None,
    };
    let target_dir = match flagged {
        Some(value) => absolute(base.as_str(), value.as_str()),
        None => match reported {
            Some(roots) => roots.target_dir,
            None => match target_dir_env {
                Some(value) => {
                    if !value.is_empty() {
                        absolute(base.as_str(), value)
                    } else {
                        absolute(root.as_str(), "target")
                    }
                },
                None => absolute(root.as_str(), "target"),
            },
        },
    };
    let identity = build_identity(root.as_str(), arguments, lockfile, os, arch);
    CargoInvocation {
        workspace_root: root,
        target_dir,
        build_dir,
        target_dir_requested: requested,
        build_identity: identity,
    }
}

/// Where the command line names no target directory and Cargo reported
/// none, a non-empty `CARGO_TARGET_DIR` decides it, taken against where the
/// invocation works from and whatever the workspace root; only an unset or
/// empty one leaves `target` under the workspace root.
pub proof fn lemma_environment_decides_target(args: Seq<Seq<char>>, working_dir: Seq<char>, env: Option<Seq<char>>, root: Seq<char>, other_root: Seq<char>)
    requires
        flag_value_of(cargo_args(args), "--target-dir"@) is None,
    ensures
        (env matches Some(v) && v.len() > 0) ==> resolved_target(args, working_dir, env, None, root)
            == joined_path(working_from(args, working_dir), env->Some_0),
        (env matches Some(v) && v.len() > 0) ==> resolved_target(args, working_dir, env, None, root)
            == resolved_target(args, working_dir, env, None, other_root),
        !(env matches Some(v) && v.len() > 0) ==> resolved_target(args, working_dir, env, None, root)
            == joined_path(root, "target"@),
{
}

/// The target directory named on the command line wins over what Cargo
/// reported and over `CARGO_TARGET_DIR`; without one, what Cargo reported
/// wins over `CARGO_TARGET_DIR`.
pub proof fn lemma_target_precedence(args: Seq<Seq<char>>, working_dir: Seq<char>, env: Option<Seq<char>>, reported: Option<Seq<char>>, root: Seq<char>)
    ensures
        flag_value_of(cargo_args(args), "--target-dir"@) is Some
            ==> resolved_target(args, working_dir, env, reported, root)
                == joined_path(working_from(args, working_dir), flag_value_of(cargo_args(args), "--target-dir"@)->Some_0),
        flag_value_of(cargo_args(args), "--target-dir"@) is None && reported is Some
            ==> resolved_target(args, working_dir, env, reported, root) == reported->Some_0,
{
}

} // verus!
