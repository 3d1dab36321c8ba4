use mbx_cache::cargo::args::{
    absolute, cargo_arguments, config_arguments, directory_option_dir, flag_value, forwarded_flags,
    invocation_dir, path_install_dir, target_dir_argument,
};
use mbx_cache::cargo::identity::{build_identity, identity_for_workspace, workspace_marker};
use mbx_cache::cargo::scope::{manifest_candidates, manifest_in_scope, probe_arguments, workspace_root};
use mbx_cache::cargo::probe::{cli_includes_files, watched_files};
use mbx_cache::cargo::install_probe::install_probe;
use std::path::Path;

fn args(value: &str) -> Vec<String> {
    value.split_whitespace().map(str::to_owned).collect()
}

fn text(path: &Path) -> String {
    path.to_string_lossy().into_owned()
}

/// Which of the candidate manifests exist on disk.
fn existing(candidates: &[String]) -> Vec<String> {
    candidates.iter().filter(|path| Path::new(path).is_file()).cloned().collect()
}

fn in_scope(arguments: &[String], working_dir: &Path) -> bool {
    let working_dir = text(working_dir);
    let found = existing(&manifest_candidates(arguments, &working_dir));
    manifest_in_scope(arguments, &working_dir, &found)
}

/// A directory holding a `Cargo.toml`, and a subdirectory of it.
fn cargo_fixture() -> (tempfile::TempDir, tempfile::TempDir) {
    let directory = tempfile::tempdir().unwrap();
    tempfile::NamedTempFile::new_in(directory.path())
        .unwrap()
        .persist(directory.path().join("Cargo.toml"))
        .unwrap();
    let nested = tempfile::tempdir_in(directory.path()).unwrap();
    (directory, nested)
}

#[test]
fn a_manifest_is_in_scope_only_where_cargo_would_read_one() {
    let outside = tempfile::tempdir().unwrap();
    let outside = outside.path();
    assert!(!in_scope(&args("binstall"), outside));
    assert!(!in_scope(&args("build"), outside));

    let (project, nested) = cargo_fixture();
    let project = project.path();
    let nested = nested.path().to_path_buf();
    assert!(in_scope(&args("binstall"), project));
    // Cargo walks up for the nearest manifest, so a subdirectory of a
    // package is inside it.
    assert!(in_scope(&args("binstall"), &nested));

    // A directory option moves the search, either way.
    assert!(in_scope(&["-C".into(), text(project), "binstall".into()], outside));
    assert!(!in_scope(&["--directory".into(), text(outside), "binstall".into()], project));

    // `--manifest-path` names the manifest outright rather than starting
    // a search, so a missing one is out of scope even inside a package.
    assert!(in_scope(
        &["binstall".into(), "--manifest-path".into(), "Cargo.toml".into()],
        project
    ));
    assert!(!in_scope(&["binstall".into(), "--manifest-path=src/Cargo.toml".into()], project));

    // `install --path` reads that directory's own manifest and does not
    // walk up to the surrounding package for it.
    assert!(in_scope(&["install".into(), "--path".into(), text(project)], outside));
    assert!(!in_scope(&["install".into(), "--path".into(), "src".into()], project));
}

#[test]
fn rustc_flags_after_separator_are_not_cargo_globals() {
    let arguments = args("rustc -- -C opt-level=3");
    assert_eq!(invocation_dir(cargo_arguments(&arguments), "/work"), "/work");
}

#[test]
fn flags_take_their_value_joined_or_separate() {
    assert_eq!(flag_value(&args("build --target-dir out"), "--target-dir"), Some("out".into()));
    assert_eq!(flag_value(&args("build --target-dir=out"), "--target-dir"), Some("out".into()));
    assert_eq!(flag_value(&args("build --target-dir"), "--target-dir"), None);
    assert_eq!(target_dir_argument(&args("build --target-dir=a --target-dir b")), Some("a".into()));
    assert_eq!(target_dir_argument(&args("build")), None);
}

#[test]
fn relative_values_follow_the_working_directory() {
    assert_eq!(absolute("/work", "out"), "/work/out");
    assert_eq!(absolute("/work/", "out"), "/work/out");
    assert_eq!(absolute("/work", "/tmp/out"), "/tmp/out");
    assert_eq!(absolute("", "out"), "out");
    assert_eq!(invocation_dir(&args("-C sub build"), "/work"), "/work/sub");
    assert_eq!(directory_option_dir(&args("--directory /elsewhere build"), "/work"), "/elsewhere");
    assert_eq!(directory_option_dir(&args("-Csub build"), "/work"), "/work/sub");
    assert_eq!(directory_option_dir(&args("build"), "/work"), "/work");
}

#[test]
fn only_a_real_install_names_a_path_source() {
    assert_eq!(path_install_dir(&args("install --path tool"), "/work"), Some("/work/tool".into()));
    assert_eq!(path_install_dir(&args("-C sub install --path tool"), "/work"), Some("/work/sub/tool".into()));
    // An option's value is not a subcommand.
    assert_eq!(path_install_dir(&args("--config install build --path tool"), "/work"), None);
    assert_eq!(path_install_dir(&args("run -- install --path tool"), "/work"), None);
    assert_eq!(path_install_dir(&args("install"), "/work"), None);
}

#[test]
fn global_flags_are_forwarded_to_the_probe_in_order() {
    let flags = ["-C", "--config", "-Z"];
    assert_eq!(
        forwarded_flags(&args("-Zunstable build --config=a=b -C dir --release"), &flags),
        args("-Zunstable --config a=b -C dir")
    );
    assert_eq!(
        probe_arguments(&args("--locked build --config x --manifest-path m/Cargo.toml --offline")),
        args("--config x metadata --no-deps --format-version 1 --manifest-path m/Cargo.toml --locked --offline")
    );
    assert_eq!(config_arguments(&args("--config=a --config b build --config")), args("a b"));
}

#[test]
fn the_workspace_root_is_the_nearest_directory_with_a_manifest() {
    let (project, nested) = cargo_fixture();
    let start = text(nested.path());
    let candidates: Vec<String> = manifest_candidates(&args("build"), &start);
    let found = existing(&candidates);
    assert_eq!(workspace_root(&start, &found), text(project.path()));
    assert_eq!(workspace_root("/nowhere/at/all", &[]), "/nowhere/at/all");
}

#[test]
fn lockfile_makes_identity_independent_of_checkout_path() {
    let command = args("build --workspace");
    assert_eq!(
        build_identity("/left/project", &command, Some(b"same"), "linux", "x86_64"),
        build_identity("/right/checkout", &command, Some(b"same"), "linux", "x86_64"),
    );
}

#[test]
fn cargo_commands_and_toolchain_selectors_share_predictions() {
    let lock: &[u8] = b"same";
    let build = build_identity("/p", &args("build"), Some(lock), "linux", "x86_64");
    assert_eq!(build, build_identity("/p", &args("test --workspace"), Some(lock), "linux", "x86_64"));
    assert_eq!(build, build_identity("/p", &args("+1.91 check"), Some(lock), "linux", "x86_64"));
}

#[test]
fn the_identity_hashes_the_canonical_document() {
    let marker = workspace_marker("/work/project", Some(b"same"));
    assert_eq!(marker, blake3::hash(b"same").to_hex().to_string());
    assert_eq!(workspace_marker("/work/project", None), "project");
    let expected = blake3::hash(
        format!("{{\"arch\":\"x86_64\",\"os\":\"linux\",\"version\":3,\"workspace\":\"{marker}\"}}").as_bytes(),
    )
    .to_hex()
    .to_string();
    assert_eq!(identity_for_workspace(&marker, "linux", "x86_64"), expected);
    let quoted = blake3::hash("{\"arch\":\"a\",\"os\":\"o\",\"version\":3,\"workspace\":\"x\\\"y\\n\\u001f\u{e9}\"}".as_bytes())
        .to_hex()
        .to_string();
    assert_eq!(identity_for_workspace("x\"y\n\u{1f}\u{e9}", "o", "a"), quoted);
    assert_ne!(
        build_identity("/p", &args("build"), Some(b"same"), "linux", "x86_64"),
        build_identity("/p", &args("build"), Some(b"same"), "macos", "x86_64"),
    );
}

#[test]
fn a_probe_watches_the_files_cargo_reads_on_the_way_to_the_root() {
    let arguments = vec![
        "build".to_string(),
        "--manifest-path".to_string(),
        "crates/app/Cargo.toml".to_string(),
        "--config".to_string(),
        "ci.toml".to_string(),
        "--config=build.jobs=2".to_string(),
    ];
    let existing = vec!["/w/ci.toml".to_string()];
    let watched = watched_files("/usr/bin/cargo", &arguments, "/w", Some("/home/u/.cargo"), &existing);
    assert_eq!(
        watched,
        vec![
            "/usr/bin/cargo",
            "/w/crates/app/Cargo.toml",
            "/w/crates/Cargo.toml",
            "/w/Cargo.toml",
            "/Cargo.toml",
            "/w/.cargo/config.toml",
            "/w/.cargo/config",
            "/.cargo/config.toml",
            "/.cargo/config",
            "/home/u/.cargo/config.toml",
            "/home/u/.cargo/config",
            "/w/ci.toml",
        ]
    );
}

#[test]
fn an_inline_include_cannot_be_pinned() {
    let with = vec!["build".to_string(), "--config".to_string(), " include = ['x.toml']".to_string()];
    assert!(cli_includes_files(&with));
    let without = vec!["build".to_string(), "--config=build.jobs=2".to_string(), "--config".to_string(), "ci.toml".to_string()];
    assert!(!cli_includes_files(&without));
}

fn toml_target(path: &str) -> String {
    format!("build.target-dir = {}", toml::Value::String(path.to_string()))
}

#[test]
fn path_install_probes_run_in_the_source_with_caller_relative_paths() {
    let arguments = args("install --path src/tool --config ci.toml --config build.target-dir='out' -Z unstable-options --locked");
    let rebased = vec!["unused".to_string(), "build.target-dir='out'".to_string()];
    let (probe, source, target) =
        install_probe(&arguments, "/w", Some("tgt"), Some("t2"), &rebased).expect("an install --path");
    assert_eq!(source, "/w/src/tool");
    assert_eq!(target.as_deref(), Some("/w/t2"));
    assert_eq!(
        probe,
        vec![
            "--config".to_string(),
            toml_target("/w/tgt"),
            "--config".to_string(),
            "/w/ci.toml".to_string(),
            "--config".to_string(),
            "build.target-dir='out'".to_string(),
            "--config".to_string(),
            toml_target("/w/out"),
            "-Z".to_string(),
            "unstable-options".to_string(),
            "build".to_string(),
            "--locked".to_string(),
        ]
    );
}

#[test]
fn path_install_directory_flags_rebase_the_target_environment() {
    let arguments = args("-C caller install --path ../src");
    let (probe, source, target) = install_probe(&arguments, "/w", Some(""), Some("t"), &vec![]).expect("install");
    assert_eq!(source, "/w/caller/../src");
    assert_eq!(target.as_deref(), Some("/w/caller/t"));
    assert_eq!(probe, vec!["build".to_string()]);
    assert!(install_probe(&args("build"), "/w", None, None, &vec![]).is_none());
}
