use mbx_cache::agent::digest::CacheDigest;
use mbx_cache::cc::discovery::{
    include_manifest, is_includable, is_manifest_input, CcActionInput, CcDiscoveredInputs, CcInputPrediction,
    INCLUDE_MANIFEST_PREFIX, MAX_MANIFEST_ENTRIES,
};
use mbx_cache::cc::prediction::PathMapping;
use mbx_cache::cc::scan::{contains_subslice, mentions_timestamp, TimestampScanner};

/// Scan `contents` the way a file is read: in chunks of `chunk` bytes.
fn scan_in_chunks(contents: &[u8], chunk: usize) -> bool {
    let mut scanner = TimestampScanner::new();
    let mut found = false;
    for piece in contents.chunks(chunk) {
        found = scanner.feed(piece);
        if found {
            break;
        }
    }
    found
}

#[test]
fn timestamp_macro_tokens_in_any_read_file_bypass() {
    assert!(!mentions_timestamp(b"int main(void) { return 0; }\n"));
    assert!(mentions_timestamp(b"/* built on __DATE__ */\n"));
    assert!(mentions_timestamp(b"__TIME__"));
    assert!(mentions_timestamp(b"x __TIMESTAMP__ y"));
}

#[test]
fn file_macro_alone_does_not_bypass() {
    assert!(!mentions_timestamp(b"#define A() assert(__FILE__ != 0)\n"));
    assert!(!scan_in_chunks(b"#define A() assert(__FILE__ != 0)\n", 4));
}

#[test]
fn a_timestamp_macro_split_across_a_read_boundary_is_still_found() {
    let chunk = 64 * 1024;
    let mut contents = "a".repeat(chunk - 4);
    contents.push_str("__TIMESTAMP__");
    assert!(scan_in_chunks(contents.as_bytes(), chunk));
    for size in 1..16 {
        assert!(scan_in_chunks(b"0123456789__DATE__", size), "chunks of {size}");
        assert!(!scan_in_chunks(b"0123456789__DAT_E__", size), "chunks of {size}");
    }
}

#[test]
fn subslices_are_found_only_whole() {
    assert!(contains_subslice(b"abcdef", b"cde"));
    assert!(!contains_subslice(b"abcdef", b"ced"));
    assert!(!contains_subslice(b"abc", b""));
    assert!(!contains_subslice(b"ab", b"abc"));
    assert!(contains_subslice(b"abc", b"abc"));
}

#[test]
fn includable_names_follow_the_header_and_source_extensions() {
    assert!(is_includable("vector"));
    assert!(is_includable("foo.h"));
    assert!(is_includable("foo.H"));
    assert!(is_includable("foo.h.gch"));
    assert!(is_includable("pch.PCH"));
    assert!(!is_includable("foo.o"));
    assert!(!is_includable("foo.d"));
    assert!(!is_includable("libfoo.a"));
    assert!(!is_includable(".keep"));
    assert!(!is_includable(".h"));
}

#[test]
fn manifest_inputs_carry_the_marker() {
    assert!(is_manifest_input(&format!("{INCLUDE_MANIFEST_PREFIX}/usr/include")));
    assert!(!is_manifest_input("/usr/include/stdio.h"));
}

fn entries(names: &[(&str, &str)]) -> Vec<(String, String)> {
    names.iter().map(|(path, name)| (path.to_string(), name.to_string())).collect()
}

#[test]
fn a_manifest_digests_the_sorted_includable_names() {
    let mut budget = 0;
    let digest = include_manifest(
        &entries(&[("sub/b.h", "b.h"), ("a.h", "a.h"), ("a.o", "a.o"), ("vector", "vector")]),
        &mut budget,
    )
    .unwrap();
    assert_eq!(budget, 3);
    assert_eq!(digest, CacheDigest::blake3(b"a.h\nsub/b.h\nvector"));
    let mut empty_budget = 0;
    assert_eq!(include_manifest(&Vec::new(), &mut empty_budget).unwrap(), CacheDigest::blake3(b""));
}

#[test]
fn a_precompiled_header_moves_a_manifest_and_an_object_does_not() {
    let mut budget = 0;
    let before = include_manifest(&entries(&[("foo.h", "foo.h")]), &mut budget).unwrap();
    let after = include_manifest(&entries(&[("foo.h", "foo.h"), ("foo.h.gch", "foo.h.gch")]), &mut budget).unwrap();
    assert_ne!(before, after);
    let objects = include_manifest(&entries(&[("foo.h", "foo.h"), ("foo.o", "foo.o")]), &mut budget).unwrap();
    assert_eq!(before, objects);
}

#[test]
fn manifests_share_one_entry_budget() {
    let mut budget = MAX_MANIFEST_ENTRIES - 1;
    assert!(include_manifest(&entries(&[("a.h", "a.h")]), &mut budget).is_ok());
    assert_eq!(budget, MAX_MANIFEST_ENTRIES);
    let error = include_manifest(&entries(&[("b.h", "b.h")]), &mut budget).unwrap_err();
    assert_eq!(error.kind(), "too-many-inputs");
    assert!(include_manifest(&entries(&[("b.o", "b.o")]), &mut budget).is_ok());
}

fn input(path: &str, contents: &[u8]) -> CcActionInput {
    CcActionInput { path: path.to_string(), digest: CacheDigest::blake3(contents) }
}

#[test]
fn verification_rereads_only_files_and_names_the_changed_one() {
    let discovered = CcDiscoveredInputs::new(
        "/work".into(),
        vec![
            input("/work/a.c", b"a"),
            input(&format!("{INCLUDE_MANIFEST_PREFIX}/work/include"), b"manifest"),
            input("/work/b.h", b"b"),
        ],
    );
    let files = discovered.files();
    assert_eq!(files.len(), 2);
    assert_eq!(files[1].path, "/work/b.h");
    let now = vec![None, None];
    assert_eq!(discovered.rereads(&now), vec![true, true]);
    assert!(discovered
        .verify(&now, &vec![Some(Ok(CacheDigest::blake3(b"a"))), Some(Ok(CacheDigest::blake3(b"b")))])
        .is_ok());
    let changed = discovered
        .verify(&now, &vec![Some(Ok(CacheDigest::blake3(b"a"))), Some(Ok(CacheDigest::blake3(b"b2")))])
        .unwrap_err();
    assert_eq!(changed.kind(), "input-changed");
    let unreadable =
        discovered.verify(&now, &vec![Some(Err("gone".into())), Some(Ok(CacheDigest::blake3(b"b")))]).unwrap_err();
    assert_eq!(unreadable.kind(), "input-read");
}

fn prediction(version: u8, inputs: &[&str]) -> CcInputPrediction {
    CcInputPrediction {
        version,
        inputs: inputs.iter().map(|value| value.to_string()).collect(),
        environment: Vec::new(),
        compiler_duration_ns: 0,
        source_name: String::new(),
    }
}

#[test]
fn a_prediction_from_a_future_schema_bypasses() {
    let error = prediction(2, &[]).discover_paths(&[]).unwrap_err();
    assert_eq!(error.kind(), "unsupported-prediction");
}

#[test]
fn predicted_entries_resolve_through_the_mappings() {
    let mappings = [PathMapping { root: "/work/one".into(), placeholder: "workspace".into() }];
    let manifest_entry = format!("{INCLUDE_MANIFEST_PREFIX}${{workspace}}/include");
    let paths = prediction(1, &["${workspace}/src/a.c", &manifest_entry, "/usr/include/stdio.h"])
        .discover_paths(&mappings)
        .unwrap();
    assert_eq!(
        paths,
        vec![
            (false, "/work/one/src/a.c".to_string()),
            (true, "/work/one/include".to_string()),
            (false, "/usr/include/stdio.h".to_string()),
        ]
    );
    let hostile = prediction(1, &["${workspace}/../escape"]).discover_paths(&mappings).unwrap_err();
    assert_eq!(hostile.kind(), "invalid-predicted-input");
}
