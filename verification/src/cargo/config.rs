//! What Cargo and mbx configuration files say that matters here: whether a
//! Cargo configuration may move the target directory or pull in other files,
//! where mbx keeps its cache, and which roots `cargo metadata` reported.
use vstd::prelude::*;
use crate::cargo::args::{absolute, joined_path};
use crate::cargo::resolve::ReportedRoots;

verus! {

/// The name for what `toml::from_str` finds in a Cargo configuration file:
/// none where the text is not TOML, else whether it sets `build.target-dir`
/// and whether it sets `include`.
pub uninterp spec fn toml_config_keys(contents: Seq<char>) -> Option<(bool, bool)>;

/// `toml::from_str::<toml::Value>(contents)`, then whether the document has
/// a `target-dir` key under `build` and whether it has an `include` key; the
/// parse is not stated further.
#[verifier::external_body]
fn config_keys_of(contents: &str) -> (r: Option<(bool, bool)>)
    ensures
        r == toml_config_keys(contents@),
{
    let config = toml::from_str::<toml::Value>(contents).ok()?;
    Some((config.get("build").and_then(|build| build.get("target-dir")).is_some(), config.get("include").is_some()))
}

/// A configuration file as it was found.
#[derive(Debug, Clone)]
pub enum ConfigFile {
    /// No file is there.
    Absent,
    /// A file is there but could not be read.
    Unreadable,
    /// The file's text.
    Read(String),
}

/// Whether a configuration file may set the target directory: one that is
/// absent does not; one that cannot be read or parsed may; else it does
/// where it sets `build.target-dir` or names other files through `include`.
pub open spec fn may_set_target(file: ConfigFile) -> bool {
    match file {
        ConfigFile::Absent => false,
        ConfigFile::Unreadable => true,
        ConfigFile::Read(contents) => match toml_config_keys(contents@) {
            None => true,
            Some((target, included)) => target || included,
        },
    }
}

/// Whether a configuration file names others through `include`: one that
/// is absent does not; one that cannot be read or parsed is taken to, since
/// nothing can be seen into it.
pub open spec fn includes_files(file: ConfigFile) -> bool {
    match file {
        ConfigFile::Absent => false,
        ConfigFile::Unreadable => true,
        ConfigFile::Read(contents) => match toml_config_keys(contents@) {
            None => true,
            Some((_, included)) => included,
        },
    }
}

/// Whether a Cargo configuration file may set the target directory.
pub fn config_may_set_target(file: &ConfigFile) -> (r: bool)
    ensures
        r == may_set_target(*file),
{
    match file {
        ConfigFile::Absent => false,
        ConfigFile::Unreadable => true,
        ConfigFile::Read(contents) => match config_keys_of(contents.as_str()) {
            None => true,
            Some((target, included)) => target || included,
        },
    }
}

/// Whether a Cargo configuration file names others through `include`.
pub fn config_includes_files(file: &ConfigFile) -> (r: bool)
    ensures
        r == includes_files(*file),
{
    match file {
        ConfigFile::Absent => false,
        ConfigFile::Unreadable => true,
        ConfigFile::Read(contents) => match config_keys_of(contents.as_str()) {
            None => true,
            Some((_, included)) => included,
        },
    }
}

/// The name for the `cache_dir` string that `toml::from_str` finds in the
/// mbx configuration file: none where the text is not TOML or sets no such
/// string.
pub uninterp spec fn toml_cache_dir(contents: Seq<char>) -> Option<Seq<char>>;

/// `toml::from_str::<toml::Value>(contents)`, then its `cache_dir` string;
/// the parse is not stated further.
#[verifier::external_body]
fn cache_dir_of(contents: &str) -> (r: Option<String>)
    ensures
        match r {
            Some(d) => toml_cache_dir(contents@) == Some(d@),
            None => toml_cache_dir(contents@) == None::<Seq<char>>,
        },
{
    let document = toml::from_str::<toml::Value>(contents).ok()?;
    document.get("cache_dir").and_then(toml::Value::as_str).map(str::to_owned)
}

/// The cache directory the mbx configuration file names, if any.
pub fn configured_cache_dir(contents: &str) -> (r: Option<String>)
    ensures
        match r {
            Some(d) => toml_cache_dir(contents@) == Some(d@),
            None => toml_cache_dir(contents@) == None::<Seq<char>>,
        },
{
    cache_dir_of(contents)
}

/// The shared cache root: a non-empty `MBX_CACHE_DIR`, else the directory
/// the mbx configuration file names, else `mbx` under the platform's cache
/// directory, where it has one.
pub open spec fn cache_root_choice(environment: Option<Seq<char>>, config: Option<Seq<char>>, platform_cache: Option<Seq<char>>) -> Option<Seq<char>> {
    match environment {
        Some(root) if root.len() > 0 => Some(root),
        _ => {
            let configured = match config {
                Some(contents) => toml_cache_dir(contents),
                None => None,
            };
            match configured {
                Some(root) => Some(root),
                None => match platform_cache {
                    Some(base) => Some(joined_path(base, "mbx"@)),
                    None => None,
                },
            }
        },
    }
}

/// An optional text as plain characters.
pub open spec fn text_of(o: Option<&str>) -> Option<Seq<char>> {
    match o {
        Some(t) => Some(t@),
        None => None,
    }
}

/// Choose the shared cache root from the value of `MBX_CACHE_DIR`, the text
/// of the mbx configuration file where it could be read, and the platform's
/// cache directory.
pub fn cache_root_from(environment: Option<&str>, config: Option<&str>, platform_cache: Option<&str>) -> (r: Option<String>)
    ensures
        match r {
            Some(root) => cache_root_choice(text_of(environment), text_of(config), text_of(platform_cache)) == Some(root@),
            None => cache_root_choice(text_of(environment), text_of(config), text_of(platform_cache)) == None::<Seq<char>>,
        },
{
    if let Some(root) = environment {
        if root.unicode_len() > 0 {
            return Some(root.to_string());
        }
    }
    let configured = match config {
        Some(contents) => configured_cache_dir(contents),
        None => None,
    };
    match configured {
        Some(root) => Some(root),
        None => match platform_cache {
            Some(base) => {
                let r = absolute(base, "mbx");
                proof {
                    reveal_strlit("mbx");
                }
                Some(r)
            },
            None => None,
        },
    }
}

/// The name for the roots that `serde_json` reads from `cargo metadata`
/// output: none where it is not JSON or lacks a string `workspace_root` or
/// `target_directory`; else those two and the `build_directory` string, if
/// there is one.
pub uninterp spec fn cargo_metadata_roots(stdout: Seq<u8>) -> Option<(Seq<char>, Seq<char>, Option<Seq<char>>)>;

/// `serde_json::from_slice::<serde_json::Value>(stdout)`, then its
/// `workspace_root`, `target_directory` and `build_directory` strings; the
/// parse is not stated further.
#[verifier::external_body]
fn metadata_roots_of(stdout: &[u8]) -> (r: Option<(String, String, Option<String>)>)
    ensures
        match r {
            Some((w, t, b)) => cargo_metadata_roots(stdout@) == Some((w@, t@, match b { Some(d) => Some(d@), None => None::<Seq<char>> })),
            None => cargo_metadata_roots(stdout@) == None::<(Seq<char>, Seq<char>, Option<Seq<char>>)>,
        },
{
    let metadata: serde_json::Value = serde_json::from_slice(stdout).ok()?;
    let workspace_root = metadata.get("workspace_root")?.as_str()?.to_owned();
    let target_directory = metadata.get("target_directory")?.as_str()?.to_owned();
    Some((workspace_root, target_directory, metadata.get("build_directory").and_then(|value| value.as_str()).map(str::to_owned)))
}

/// The roots a successful `cargo metadata` probe reported on its standard
/// output.
pub fn reported_roots(stdout: &[u8]) -> (r: Option<ReportedRoots>)
    ensures
        match cargo_metadata_roots(stdout@) {
            Some((w, t, b)) => r matches Some(x) && x.workspace_root@ == w && x.target_dir@ == t
                && match x.build_dir { Some(d) => b == Some(d@), None => b is None },
            None => r is None,
        },
{
    match metadata_roots_of(stdout) {
        Some((workspace_root, target_dir, build_dir)) => Some(ReportedRoots { workspace_root, target_dir, build_dir }),
        None => None,
    }
}

} // verus!
