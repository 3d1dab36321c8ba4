use mbx_cache::agent::digest::CacheDigest;
use mbx_cache::agent::validate::{validate_prefetched_action, DirectoryListing, PrefetchError};

fn d(name: &str) -> CacheDigest {
    CacheDigest::blake3(name.as_bytes())
}

fn listing(files: &[&str], directories: &[&str]) -> DirectoryListing {
    DirectoryListing { files: files.iter().map(|f| d(f)).collect(), directories: directories.iter().map(|x| d(x)).collect() }
}

fn tree() -> Vec<(CacheDigest, DirectoryListing)> {
    vec![
        (d("root"), listing(&["lib.rlib"], &["deps", "shared"])),
        (d("deps"), listing(&["dep.rmeta"], &["shared"])),
        (d("shared"), listing(&["common.o"], &[])),
    ]
}

#[test]
fn a_complete_output_tree_validates() {
    let verified = vec![d("action"), d("meta"), d("lib.rlib"), d("dep.rmeta"), d("common.o")];
    let result = validate_prefetched_action("cc", &d("action"), &Some(d("meta")), &Some(d("root")), &verified, &vec![], &tree());
    assert_eq!(result, Ok(()));
    // No output tree: only the descriptor and metadata matter.
    assert_eq!(validate_prefetched_action("cc", &d("action"), &None, &None, &vec![d("action")], &vec![], &vec![]), Ok(()));
}

#[test]
fn each_missing_piece_is_named() {
    let all = vec![d("action"), d("meta"), d("lib.rlib"), d("dep.rmeta"), d("common.o")];
    let without = |gone: &str| -> Vec<CacheDigest> { all.iter().filter(|x| **x != d(gone)).cloned().collect() };
    let check = |verified: &Vec<CacheDigest>, dirs: &Vec<(CacheDigest, DirectoryListing)>| {
        validate_prefetched_action("cc", &d("action"), &Some(d("meta")), &Some(d("root")), verified, &vec![], dirs)
    };
    assert_eq!(check(&without("action"), &tree()), Err(PrefetchError::DescriptorMissing));
    assert_eq!(check(&without("meta"), &tree()), Err(PrefetchError::MetadataMissing));
    assert_eq!(check(&without("common.o"), &tree()), Err(PrefetchError::FileMissing));
    let mut partial = tree();
    partial.remove(2);
    assert_eq!(check(&all, &partial), Err(PrefetchError::DirectoryMissing));
    assert_eq!(PrefetchError::FileMissing.message(), "remote action output file is missing");
}

#[test]
fn rustc_metadata_names_its_diagnostic_blobs() {
    let rustc = vec![(d("meta"), (d("stdout"), d("stderr")))];
    let verified = vec![d("action"), d("stdout"), d("stderr")];
    assert_eq!(validate_prefetched_action("rustc", &d("action"), &Some(d("meta")), &None, &verified, &rustc, &vec![]), Ok(()));
    assert_eq!(
        validate_prefetched_action("rustc", &d("action"), &Some(d("other")), &None, &verified, &rustc, &vec![]),
        Err(PrefetchError::RustcMetadataMissing)
    );
    assert_eq!(
        validate_prefetched_action("rustc", &d("action"), &Some(d("meta")), &None, &vec![d("action"), d("stdout")], &rustc, &vec![]),
        Err(PrefetchError::DiagnosticMissing)
    );
}

#[test]
fn a_directory_reached_twice_is_walked_once_and_cycles_end() {
    let cyclic = vec![(d("a"), listing(&[], &["b"])), (d("b"), listing(&[], &["a"]))];
    let verified = vec![d("action")];
    assert_eq!(validate_prefetched_action("cc", &d("action"), &None, &Some(d("a")), &verified, &vec![], &cyclic), Ok(()));
}
