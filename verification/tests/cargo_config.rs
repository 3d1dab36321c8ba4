use mbx_cache::cargo::config::{
    cache_root_from, config_includes_files, config_may_set_target, configured_cache_dir, reported_roots, ConfigFile,
};

fn read(text: &str) -> ConfigFile {
    ConfigFile::Read(text.to_string())
}

#[test]
fn configuration_that_may_move_the_target_directory() {
    assert!(!config_may_set_target(&ConfigFile::Absent));
    assert!(config_may_set_target(&ConfigFile::Unreadable));
    assert!(config_may_set_target(&read("[build]\ntarget-dir = \"out\"\n")));
    assert!(config_may_set_target(&read("include = \"other.toml\"\n")));
    assert!(config_may_set_target(&read("this is [not toml")));
    assert!(!config_may_set_target(&read("[build]\njobs = 4\n")));
    assert!(!config_may_set_target(&read("")));
}

#[test]
fn configuration_that_names_other_files() {
    assert!(!config_includes_files(&ConfigFile::Absent));
    assert!(config_includes_files(&ConfigFile::Unreadable));
    assert!(config_includes_files(&read("include = [\"a.toml\"]\n")));
    assert!(config_includes_files(&read("= broken")));
    assert!(!config_includes_files(&read("[build]\ntarget-dir = \"out\"\n")));
}

#[test]
fn the_cache_root_prefers_the_environment_then_the_configuration_then_the_platform() {
    let config = "cache_dir = \"/configured/mbx\"\n";
    assert_eq!(cache_root_from(Some("/env/mbx"), Some(config), Some("/home/u/.cache")), Some("/env/mbx".to_string()));
    assert_eq!(cache_root_from(Some(""), Some(config), Some("/home/u/.cache")), Some("/configured/mbx".to_string()));
    assert_eq!(cache_root_from(None, Some("other = 1\n"), Some("/home/u/.cache")), Some("/home/u/.cache/mbx".to_string()));
    assert_eq!(cache_root_from(None, None, None), None);
    assert_eq!(configured_cache_dir("cache_dir = 3\n"), None);
}

#[test]
fn metadata_roots_come_from_the_probe_output() {
    let stdout = br#"{"workspace_root":"/w","target_directory":"/w/target","build_directory":"/w/build","packages":[]}"#;
    let roots = reported_roots(stdout).unwrap();
    assert_eq!(roots.workspace_root, "/w");
    assert_eq!(roots.target_dir, "/w/target");
    assert_eq!(roots.build_dir.as_deref(), Some("/w/build"));
    let older = br#"{"workspace_root":"/w","target_directory":"/w/target"}"#;
    assert_eq!(reported_roots(older).unwrap().build_dir, None);
    assert!(reported_roots(br#"{"workspace_root":"/w"}"#).is_none());
    assert!(reported_roots(b"not json").is_none());
}
