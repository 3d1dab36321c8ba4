use mbx_cache::agent::digest::CacheDigest;
use mbx_cache::cc::manifest_dirs::{coverage_probes, manifest_snapshot, minimal_manifest_directories};

fn owned(paths: &[&str]) -> Vec<String> {
    paths.iter().map(|p| p.to_string()).collect()
}

#[test]
fn recursive_manifests_drop_directories_an_ancestor_already_covers() {
    let root = "/work/include";
    let generated = "/work/generated";
    let directories = owned(&[
        "/work/include/crypto/fipsmodule",
        root,
        "/work/include/crypto",
        generated,
    ]);
    // Every probed prefix is a plain directory.
    let plain = coverage_probes(&directories);
    assert_eq!(minimal_manifest_directories(&directories, &plain), owned(&[generated, root]));
}

#[test]
fn a_parent_path_does_not_cover_a_directory_that_escapes_through_dot_dot() {
    let search_dir = "/work/include";
    let escaped = "/work/include/../sibling";
    let directories = owned(&[search_dir, escaped]);
    let plain = coverage_probes(&directories);
    assert_eq!(minimal_manifest_directories(&directories, &plain), owned(&[search_dir, escaped]));
}

#[test]
fn a_parent_manifest_does_not_claim_a_directory_reached_through_a_symlink() {
    let search_dir = "/work/include";
    let linked = "/work/include/linked/nested";
    let directories = owned(&[search_dir, linked]);
    // `linked` is a symbolic link: it is left out of the plain directories.
    let plain: Vec<String> = coverage_probes(&directories)
        .into_iter()
        .filter(|p| p != "/work/include/linked")
        .collect();
    assert!(coverage_probes(&directories).contains(&"/work/include/linked".to_string()));
    assert_eq!(minimal_manifest_directories(&directories, &plain), owned(&[search_dir, linked]));
}

#[test]
fn probes_name_each_prefix_below_the_root() {
    let probes = coverage_probes(&owned(&["/a/./b/../c", "rel/d"]));
    assert_eq!(probes, owned(&["/a", "/a/c", "rel", "rel/d"]));
}

#[test]
fn a_descendant_is_covered_only_when_every_step_is_a_plain_directory() {
    let directories = owned(&["/a/b/c", "/a"]);
    // With `/a/b` unknown the walk from `/a` is not sure to reach `/a/b/c`.
    let plain = owned(&["/a", "/a/b/c"]);
    assert_eq!(minimal_manifest_directories(&directories, &plain), owned(&["/a", "/a/b/c"]));
    let plain = owned(&["/a", "/a/b", "/a/b/c"]);
    assert_eq!(minimal_manifest_directories(&directories, &plain), owned(&["/a"]));
}

/// The name manifest of `include` holding these files.
fn manifest(names: &[&str]) -> CacheDigest {
    let listing: Vec<(String, String)> = names.iter().map(|n| (n.to_string(), n.to_string())).collect();
    let snapshot = manifest_snapshot(&vec![("/work/include".to_string(), listing)]).expect("snapshot");
    assert_eq!(snapshot.len(), 1);
    assert_eq!(snapshot[0].0, "/work/include");
    snapshot[0].1.clone()
}

#[test]
fn manifests_ignore_files_that_could_never_shadow_an_include() {
    let before = manifest(&["config.h"]);
    assert_eq!(before, manifest(&["config.h", "a.o", "a.d", "libfoo.a"]));
    assert_ne!(before, manifest(&["config.h", "a.o", "a.d", "libfoo.a", "shadowing.h"]));
}

#[test]
fn a_source_appearing_in_a_search_directory_changes_the_manifest() {
    let before = manifest(&["used.h"]);
    for source in ["shadow.c", "shadow.cpp", "shadow.cc", "shadow.cxx"] {
        assert_ne!(before, manifest(&["used.h", source]), "{source} can satisfy an #include and must move the key");
    }
}

#[test]
fn extensionless_names_count_as_includable() {
    let empty = manifest(&[]);
    assert_ne!(empty, manifest(&["vector"]));
}

#[test]
fn a_precompiled_header_appearing_beside_its_header_changes_the_manifest() {
    let before = manifest(&["foo.h"]);
    for precompiled in ["foo.h.gch", "foo.h.pch"] {
        assert_ne!(before, manifest(&["foo.h", precompiled]), "{precompiled} can answer an #include and must move the key");
    }
}

#[test]
fn snapshots_name_each_directory_in_order() {
    let headers = vec![("a.h".to_string(), "a.h".to_string())];
    let objects = vec![("a.o".to_string(), "a.o".to_string())];
    let snapshot = manifest_snapshot(&vec![("/a".to_string(), headers), ("/b".to_string(), objects)]).expect("fits");
    assert_eq!(snapshot, vec![("/a".to_string(), CacheDigest::blake3(b"a.h")), ("/b".to_string(), CacheDigest::blake3(b""))]);
}
