use mbx_cache::agent::digest::CacheDigest;
use mbx_cache::agent::file_digest::{FileDigestLedger, FileDigestScope, FileIdentity, RecordedFileDigest};
use mbx_cache::cc::collect::{
    admit_collection, admit_file_stats, fresh_records, ledger_queries, remembered_digests, FileStat, MAX_INPUT_BYTES,
};
use mbx_cache::cc::discovery::{is_manifest_input, CcActionInput, CcDiscoveredInputs, MAX_PREDICTED_INPUTS};
use mbx_cache::cc::scan::mentions_timestamp;

fn identity(path: &str, len: u64, nanos: u32) -> FileIdentity {
    FileIdentity { path: path.to_string(), len, modified: (1_700_000_000, nanos), changed: Some((1_700_000_000, 7)) }
}

fn digest(fill: &str, size: u64) -> CacheDigest {
    CacheDigest { algorithm: "blake3".into(), hash: fill.repeat(64), size }
}

#[test]
fn discovery_requires_an_absolute_working_directory() {
    assert_eq!(admit_collection("relative", 0, 0).unwrap_err().kind(), "relative-working-directory");
}

#[test]
fn an_absolute_working_directory_is_normalized() {
    assert_eq!(admit_collection("/work/./src/../build", 1, 1).unwrap(), "/work/build");
}

#[test]
fn too_many_inputs_refuse_the_collection() {
    assert!(admit_collection("/work", MAX_PREDICTED_INPUTS - 1, 1).is_ok());
    assert_eq!(admit_collection("/work", MAX_PREDICTED_INPUTS, 1).unwrap_err().kind(), "too-many-inputs");
    assert_eq!(admit_collection("/work", usize::MAX, usize::MAX).unwrap_err().kind(), "too-many-inputs");
}

#[test]
fn file_stats_refuse_non_files_unreadable_files_and_oversized_totals() {
    let ok: Vec<(String, FileStat)> = vec![("/a.c".into(), Ok((10, true))), ("/a.h".into(), Ok((20, true)))];
    assert!(admit_file_stats(&ok).is_ok());

    let directory: Vec<(String, FileStat)> = vec![("/a.c".into(), Ok((10, true))), ("/include".into(), Ok((0, false)))];
    let reason = admit_file_stats(&directory).unwrap_err();
    assert_eq!(reason.kind(), "input-read");

    let unreadable: Vec<(String, FileStat)> = vec![("/gone.h".into(), Err("not found".into()))];
    assert_eq!(admit_file_stats(&unreadable).unwrap_err().kind(), "input-read");

    let exactly: Vec<(String, FileStat)> = vec![("/a".into(), Ok((MAX_INPUT_BYTES - 1, true))), ("/b".into(), Ok((1, true)))];
    assert!(admit_file_stats(&exactly).is_ok());
    let over: Vec<(String, FileStat)> = vec![("/a".into(), Ok((MAX_INPUT_BYTES, true))), ("/b".into(), Ok((1, true)))];
    assert_eq!(admit_file_stats(&over).unwrap_err().kind(), "too-many-inputs");
    let huge: Vec<(String, FileStat)> = vec![("/a".into(), Ok((u64::MAX, true)))];
    assert_eq!(admit_file_stats(&huge).unwrap_err().kind(), "too-many-inputs");
}

#[test]
fn a_vouched_cc_input_skips_the_scan_it_already_passed() {
    let contents = b"/* __DATE__ */ int main(void) { return 0; }\n";
    let source = identity("/work/a.c", contents.len() as u64, 1);
    let vouched = digest("d", contents.len() as u64);
    let mut ledger = FileDigestLedger::new();
    ledger
        .record(FileDigestScope::CcInput, vec![RecordedFileDigest { file: source.clone(), digest: vouched.clone() }])
        .unwrap();

    // The recorded identity answers: neither scan nor hash reads the file.
    let identities = vec![Some(source.clone())];
    let found = ledger.find(FileDigestScope::CcInput, &ledger_queries(&identities)).unwrap();
    assert_eq!(remembered_digests(&identities, &found), vec![Some(vouched)]);

    // Rewritten to a new length, the identity no longer matches: the scan
    // runs and the macro token bypasses again.
    let rewritten = b"/* __DATE__ */ int main(void) { return 12345; }\n";
    let identities = vec![Some(identity("/work/a.c", rewritten.len() as u64, 2))];
    let found = ledger.find(FileDigestScope::CcInput, &ledger_queries(&identities)).unwrap();
    assert_eq!(remembered_digests(&identities, &found), vec![None]);
    assert!(mentions_timestamp(rewritten));
}

#[test]
fn lookups_answer_only_the_files_that_have_an_identity() {
    let a = identity("/a.h", 4, 1);
    let c = identity("/c.h", 9, 1);
    let identities = vec![Some(a.clone()), None, Some(c.clone())];
    assert_eq!(ledger_queries(&identities), vec![a, c]);
    // The second answer belongs to the third file; a length that disagrees
    // with the identity is not trusted.
    let found = vec![Some(digest("a", 4)), Some(digest("c", 9))];
    assert_eq!(remembered_digests(&identities, &found), vec![Some(digest("a", 4)), None, Some(digest("c", 9))]);
    let wrong_length = vec![Some(digest("a", 5)), None];
    assert_eq!(remembered_digests(&identities, &wrong_length), vec![None, None, None]);
    // A short answer leaves the rest unanswered.
    assert_eq!(remembered_digests(&identities, &vec![]), vec![None, None, None]);
}

#[test]
fn only_fresh_digests_that_match_their_identity_are_recorded() {
    let a = identity("/a.h", 4, 1);
    let b = identity("/b.h", 6, 1);
    let c = identity("/c.h", 9, 1);
    let identities = vec![Some(a.clone()), Some(b.clone()), None, Some(c.clone())];
    let remembered = vec![Some(digest("a", 4)), None, None, None];
    let digests = vec![digest("a", 4), digest("b", 6), digest("x", 3), digest("c", 10)];
    assert_eq!(
        fresh_records(&identities, &remembered, &digests),
        vec![RecordedFileDigest { file: b, digest: digest("b", 6) }]
    );
}

#[test]
fn include_directory_manifests_change_the_key_when_a_shadowing_header_appears() {
    let file = CcActionInput { path: "/work/src/a.c".into(), digest: CacheDigest::blake3(b"int a(void) { return 0; }\n") };
    let before = CcDiscoveredInputs::assemble(
        "/work".into(),
        vec![file.clone()],
        vec![None],
        &vec![("/work/include".into(), CacheDigest::blake3(b"used.h"))],
    );
    let after = CcDiscoveredInputs::assemble(
        "/work".into(),
        vec![file.clone()],
        vec![None],
        &vec![("/work/include".into(), CacheDigest::blake3(b"shadowing.h\nused.h"))],
    );
    let manifest = |inputs: &CcDiscoveredInputs| {
        inputs.inputs.iter().find(|input| is_manifest_input(&input.path)).expect("manifest input").clone()
    };
    assert_eq!(manifest(&before).path, "@include-manifest:/work/include");
    assert_ne!(manifest(&before).digest, manifest(&after).digest);
    assert_eq!(before.files()[0].digest, after.files()[0].digest);
    assert_eq!(before.inputs.len(), 2);
}

#[test]
fn verification_trusts_an_unchanged_identity_and_rereads_a_changed_one() {
    let header = identity("/work/a.h", 13, 1);
    // Hashing could never produce the sentinel, so a verify that passes can
    // only have trusted the identity.
    let sentinel = CacheDigest { algorithm: "blake3".into(), hash: "c".repeat(64), size: 13 };
    let discovered = CcDiscoveredInputs::assemble(
        "/work".into(),
        vec![CcActionInput { path: "/work/a.h".into(), digest: sentinel }],
        vec![Some(header.clone())],
        &vec![("/work".into(), CacheDigest::blake3(b""))],
    );
    let now = vec![Some(header.clone())];
    assert_eq!(discovered.rereads(&now), vec![false]);
    discovered.verify(&now, &vec![None]).expect("an unchanged identity verifies");

    // Same length, new bytes: the write moves the identity, so the file is
    // read again and the sentinel no longer describes it.
    let moved = vec![Some(identity("/work/a.h", 13, 2))];
    assert_eq!(discovered.rereads(&moved), vec![true]);
    let error = discovered.verify(&moved, &vec![Some(Ok(CacheDigest::blake3(b"int b(void);\n")))]).unwrap_err();
    assert_eq!(error.kind(), "input-changed");
    let unreadable = discovered.verify(&vec![None], &vec![Some(Err("gone".into()))]).unwrap_err();
    assert_eq!(unreadable.kind(), "input-read");
}
