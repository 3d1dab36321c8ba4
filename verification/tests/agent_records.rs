use mbx_cache::agent::file_digest::{FileDigestLedger, LedgerError};
use mbx_cache::agent::file_digest::{settle_resolution, FileDigestResolution};
use mbx_cache::agent::stats::{WarningError, WarningLedger, MAX_WARNINGS};
use mbx_cache::agent::protocol::ActionPrediction;
use mbx_cache::agent::session::TaskActionState;
use mbx_cache::agent::client::{
    begin_task_outcome, commit_task_outcome, handshake_outcome, AgentTransport, BlockingAgentClient,
    ClientError,
};
use mbx_cache::agent::digest::CacheDigest;
use mbx_cache::agent::file_digest::{
    validate_file_digest_record, FileDigestCache, FileDigestError, FileDigestScope, FileIdentity,
    FileSnapshot, NoFileDigestCache, RecordedFileDigest,
};
use mbx_cache::agent::stats::{validate_crate_name, AgentStats, CompilerStats, RestoreStats, StatsError};
use mbx_cache::agent::wire::{AgentRequest, AgentResponse, AGENT_PROTOCOL_VERSION};
use mbx_cache::remote::{
    is_entity_tag, parse_strong_etag, quoted_etag, EtagError, RemoteCacheMode, MAX_ETAG_BYTES,
};

fn identity(path: &str, len: u64, nanos: u32, changed: Option<(i64, i64)>) -> FileIdentity {
    FileIdentity {
        path: path.to_string(),
        len,
        modified: (1_700_000_000, nanos),
        changed,
    }
}

#[test]
fn compiler_invocations_are_counted_by_known_outcomes() {
    let mut stats = AgentStats::default();
    stats.record_compiler_invocation("miss", Some("serde"), 5).unwrap();
    stats.record_compiler_invocation("miss", Some("serde"), 7).unwrap();
    stats.record_compiler_invocation("verification", Some("serde"), 100).unwrap();
    stats.record_compiler_invocation("bypass", None, 3).unwrap();
    assert_eq!(stats.compiler_stats("miss"), Some(CompilerStats::new(2, 12)));
    assert_eq!(stats.compiler_stats("verification"), Some(CompilerStats::new(1, 100)));
    assert_eq!(stats.compiler_stats("bypass"), Some(CompilerStats::new(1, 3)));
    // Verification rebuilds are not charged to the crate.
    assert_eq!(stats.crate_duration("serde"), Some(12));
    assert_eq!(
        stats.record_compiler_invocation("hit", None, 1),
        Err(StatsError::InvalidOutcome)
    );
    assert_eq!(
        stats.record_compiler_invocation("miss", Some("bad\nname"), 1),
        Err(StatsError::InvalidCrateName)
    );
    assert_eq!(stats.compiler_stats("hit"), None);
    let names: Vec<_> = stats.compiler.iter().map(|(name, _)| name.as_str()).collect();
    assert_eq!(names, vec!["bypass", "miss", "verification"]);
}

#[test]
fn compiler_time_saturates_instead_of_wrapping() {
    let mut stats = AgentStats::default();
    stats.record_compiler_invocation("miss", Some("big"), u64::MAX).unwrap();
    stats.record_compiler_invocation("miss", Some("big"), 10).unwrap();
    assert_eq!(stats.compiler_stats("miss"), Some(CompilerStats::new(2, u64::MAX)));
    assert_eq!(stats.crate_duration("big"), Some(u64::MAX));
}

#[test]
fn counts_bypasses_by_reason() {
    let mut stats = AgentStats::default();
    stats.record_bypass("unknown-flag".into());
    stats.record_bypass("unknown-flag".into());
    stats.record_bypass("not-a-compile".into());
    assert_eq!(stats.bypass_count("unknown-flag"), Some(2));
    assert_eq!(stats.bypass_count("not-a-compile"), Some(1));
    assert_eq!(stats.bypass_count("response-file"), None);
}

#[test]
fn restores_add_to_the_session_totals() {
    let mut stats = AgentStats::default();
    let restore = RestoreStats {
        duration_ns: 10,
        avoided_compiler_duration_ns: 1000,
        output_files: 3,
        output_bytes: 300,
        reflinked_output_files: 1,
        reflinked_output_bytes: 100,
        copied_output_files: 1,
        copied_output_bytes: 100,
        reused_output_files: 1,
        reused_output_bytes: 100,
    };
    stats.record_hit(restore);
    stats.record_hit(restore);
    assert_eq!(stats.hits, 2);
    assert_eq!(stats.restored_output_files, 6);
    assert_eq!(stats.restored_output_bytes, 600);
    assert_eq!(stats.avoided_compiler_duration_ns, 2000);
    assert_eq!(stats.materialization_duration_ns, 20);
    assert_eq!(stats.reused_output_bytes, 200);
    stats.record_unconsulted();
    assert_eq!(stats.unconsulted, 1);
    assert_eq!(RestoreStats::default().output_files, 0);
}

#[test]
fn crate_names_are_bounded_single_line_text() {
    assert_eq!(validate_crate_name(None), Ok(()));
    assert_eq!(validate_crate_name(Some("serde_json")), Ok(()));
    assert_eq!(validate_crate_name(Some(&"x".repeat(256))), Ok(()));
    assert_eq!(validate_crate_name(Some(&"x".repeat(257))), Err(StatsError::InvalidCrateName));
    assert_eq!(validate_crate_name(Some("a\0b")), Err(StatsError::InvalidCrateName));
    assert_eq!(validate_crate_name(Some("a\rb")), Err(StatsError::InvalidCrateName));
}

#[test]
fn a_metadata_snapshot_compares_identities() {
    let before = identity("/work/input.rs", 12, 100, Some((1_700_000_000, 100)));
    let snapshot = FileSnapshot::capture(Some(before.clone()), None).unwrap();
    let digest = CacheDigest::blake3(b"fn main() {}");
    assert!(snapshot.matches(Some(&before), &digest));
    // The same file named with a redundant separator is the same path.
    assert!(snapshot.matches(Some(&identity("/work//input.rs", 12, 100, Some((1_700_000_000, 100)))), &digest));
    assert!(!snapshot.matches(Some(&identity("/work/input.rs", 12, 200, Some((1_700_000_000, 100)))), &digest));
    assert!(!snapshot.matches(None, &digest));
    assert!(snapshot.proves_content_change());
    let without_token = FileSnapshot::capture(Some(identity("/work/input.rs", 12, 100, None)), None).unwrap();
    assert!(!without_token.proves_content_change());
    assert!(FileSnapshot::capture(None, None).is_none());
}

#[test]
fn a_content_snapshot_ignores_metadata_churn_but_detects_changed_bytes() {
    let before = identity("/work/input.rs", 12, 100, None);
    let digest = CacheDigest::blake3(b"fn main() {}");
    let snapshot = FileSnapshot::capture(Some(before), Some(digest.clone())).unwrap();
    let churned = identity("/work/input.rs", 12, 999, None);
    assert!(snapshot.matches(Some(&churned), &digest));
    assert!(snapshot.proves_content_change());
    assert!(!snapshot.matches(Some(&churned), &CacheDigest::blake3(b"fn main(){ }")));
}

#[test]
fn file_digest_records_are_validated() {
    let digest = CacheDigest::blake3(b"0123456789ab");
    let good = RecordedFileDigest { file: identity("/work/a.c", 12, 1, None), digest: digest.clone() };
    assert_eq!(validate_file_digest_record(&good), Ok(()));
    let relative = RecordedFileDigest { file: identity("work/a.c", 12, 1, None), digest: digest.clone() };
    assert_eq!(validate_file_digest_record(&relative), Err(FileDigestError::RelativePath));
    let wrong_length = RecordedFileDigest { file: identity("/work/a.c", 13, 1, None), digest: digest.clone() };
    assert_eq!(validate_file_digest_record(&wrong_length), Err(FileDigestError::LengthMismatch));
    let mut malformed = digest;
    malformed.algorithm = "sha256".into();
    let foreign = RecordedFileDigest { file: identity("/work/a.c", 12, 1, None), digest: malformed };
    assert_eq!(validate_file_digest_record(&foreign), Err(FileDigestError::InvalidDigest));
}

#[test]
fn the_no_op_cache_finds_nothing() {
    let files = vec![identity("/a", 1, 1, None), identity("/b", 2, 2, None)];
    let found = NoFileDigestCache.find(FileDigestScope::CcInput, &files);
    assert_eq!(found, vec![None, None]);
    NoFileDigestCache.record(FileDigestScope::Content, Vec::new());
}

#[test]
fn a_blake3_digest_names_its_algorithm_and_length() {
    let digest = CacheDigest::blake3(b"fn main() {}\n");
    assert_eq!(digest.algorithm, "blake3");
    assert_eq!(digest.size, 13);
    assert_eq!(digest.hash, blake3::hash(b"fn main() {}\n").to_hex().to_string());
    assert!(digest.validate());
    let mut upper = digest.clone();
    upper.hash = upper.hash.to_uppercase();
    assert!(!upper.validate());
}

#[test]
fn remote_modes_permit_what_they_name() {
    assert!(RemoteCacheMode::ReadWrite.reads() && RemoteCacheMode::ReadWrite.writes());
    assert!(RemoteCacheMode::ReadOnly.reads() && !RemoteCacheMode::ReadOnly.writes());
    assert!(!RemoteCacheMode::WriteOnly.reads() && RemoteCacheMode::WriteOnly.writes());
    assert_eq!(RemoteCacheMode::default(), RemoteCacheMode::ReadWrite);
    assert_eq!(RemoteCacheMode::from_name("read-only"), Some(RemoteCacheMode::ReadOnly));
    assert_eq!(RemoteCacheMode::from_name("ReadOnly"), None);
    assert_eq!(RemoteCacheMode::WriteOnly.name(), "write-only");
}

#[test]
fn entity_tags_are_opaque_but_still_have_to_be_strong() {
    let hash = blake3::hash(b"manifest").to_hex().to_string();
    for accepted in [hash.clone(), format!("{hash}-zstd"), "anything".into()] {
        let header = format!("\"{accepted}\"");
        assert_eq!(parse_strong_etag(Some(header.as_bytes())).unwrap(), accepted);
        assert!(quoted_etag(&accepted).is_ok());
    }
    // A weak validator cannot carry a conditional update, and an unquoted or
    // prematurely terminated tag is not one at all.
    for rejected in [
        format!("W/\"{hash}\""),
        hash.clone(),
        format!("\"{hash}"),
        "\"\"".into(),
        "\"quo\"te\"".into(),
    ] {
        assert!(
            parse_strong_etag(Some(rejected.as_bytes())).is_err(),
            "accepted {rejected}"
        );
    }
    assert!(parse_strong_etag(None).is_err());
    assert!(quoted_etag(&"x".repeat(MAX_ETAG_BYTES + 1)).is_err());
}

#[test]
fn etag_refusals_say_why() {
    assert_eq!(parse_strong_etag(None), Err(EtagError::Missing));
    assert_eq!(parse_strong_etag(Some(b"\"caf\xc3\xa9\"")), Err(EtagError::Missing));
    assert_eq!(parse_strong_etag(Some(b"W/\"abc\"")), Err(EtagError::Weak));
    assert_eq!(parse_strong_etag(Some(b"abc")), Err(EtagError::Invalid));
    assert_eq!(quoted_etag("abc").unwrap(), "\"abc\"");
    assert!(is_entity_tag("abc-zstd"));
    assert!(!is_entity_tag("a\"b"));
    assert!(!is_entity_tag(""));
}

struct ScriptedTransport {
    responses: Vec<AgentResponse>,
    requests: Vec<String>,
}

impl AgentTransport for ScriptedTransport {
    fn exchange(&mut self, request: AgentRequest) -> Result<AgentResponse, String> {
        let kind = match request {
            AgentRequest::Hello { .. } => "hello",
            AgentRequest::BeginTask { .. } => "begin_task",
            AgentRequest::CommitTask { .. } => "commit_task",
            _ => "other",
        };
        self.requests.push(kind.to_string());
        if self.responses.is_empty() {
            return Err("cache agent closed the connection without a response".into());
        }
        Ok(self.responses.remove(0))
    }
}

fn scripted(responses: Vec<AgentResponse>) -> ScriptedTransport {
    ScriptedTransport { responses, requests: Vec::new() }
}

#[test]
fn begins_and_commits_task_runs() {
    let responses = vec![
        AgentResponse::Hello {
            protocol: AGENT_PROTOCOL_VERSION,
            agent_version: "0.5.1".into(),
        },
        AgentResponse::TaskBegun { run: "run-1".into() },
        AgentResponse::TaskCommitted,
    ];
    let mut client = BlockingAgentClient::connect(scripted(responses), "0.5.1".into()).ok().unwrap();
    let run = client.begin_task("task-1".into()).ok().unwrap();
    client.commit_task(run.clone()).ok().unwrap();
    assert_eq!(run, "run-1");

    let written = client.into_inner().requests;
    assert_eq!(written, vec!["hello", "begin_task", "commit_task"]);
}

#[test]
fn rejects_a_different_protocol_version() {
    let responses = vec![AgentResponse::Hello {
        protocol: AGENT_PROTOCOL_VERSION + 1,
        agent_version: "0.5.1".into(),
    }];
    let error = BlockingAgentClient::connect(scripted(responses), "0.5.1".into())
        .err()
        .expect("protocol mismatch should fail");
    assert!(error.message().contains("incompatible handshake"));
}

#[test]
fn agent_answers_are_judged_by_the_request_they_answer() {
    assert!(handshake_outcome(AgentResponse::TaskCommitted).is_err());
    match begin_task_outcome(AgentResponse::Error { message: "busy".into() }) {
        Err(ClientError::Agent(message)) => assert_eq!(message, "busy"),
        other => panic!("unexpected {other:?}"),
    }
    assert!(matches!(begin_task_outcome(AgentResponse::TaskCommitted), Err(ClientError::UnexpectedBeginTask)));
    assert!(matches!(commit_task_outcome(AgentResponse::TaskBegun { run: "r".into() }), Err(ClientError::UnexpectedCommitTask)));
    assert!(commit_task_outcome(AgentResponse::TaskCommitted).is_ok());
    let mut client = BlockingAgentClient::connect(
        scripted(vec![AgentResponse::Hello { protocol: AGENT_PROTOCOL_VERSION, agent_version: "x".into() }]),
        "x".into(),
    )
    .ok()
    .unwrap();
    assert!(matches!(client.begin_task("t".into()), Err(ClientError::Transport(_))));
}

fn ledger_identity(path: &str, len: u64, nanos: u32) -> FileIdentity {
    FileIdentity {
        path: format!("/{path}"),
        len,
        modified: (1_700_000_000, nanos * 100),
        changed: Some((1_700_000_000, nanos.into())),
    }
}

fn ledger_digest(len: u64) -> CacheDigest {
    CacheDigest { algorithm: "blake3".into(), hash: "b".repeat(64), size: len }
}

#[test]
fn file_digest_ledger_answers_only_matching_identities() {
    let mut ledger = FileDigestLedger::new();
    let recorded = ledger_identity("src/lib.rs", 12, 1);
    ledger
        .record(
            FileDigestScope::Content,
            vec![RecordedFileDigest { file: recorded.clone(), digest: ledger_digest(12) }],
        )
        .unwrap();
    let found = ledger
        .find(
            FileDigestScope::Content,
            &vec![recorded.clone(), ledger_identity("src/lib.rs", 12, 2), ledger_identity("src/main.rs", 12, 1)],
        )
        .unwrap();
    assert_eq!(found, vec![Some(ledger_digest(12)), None, None]);
}

#[test]
fn file_digest_ledger_scopes_do_not_answer_for_each_other() {
    let mut ledger = FileDigestLedger::new();
    let recorded = ledger_identity("src/lib.rs", 12, 1);
    ledger
        .record(FileDigestScope::Content, vec![RecordedFileDigest { file: recorded.clone(), digest: ledger_digest(12) }])
        .unwrap();
    assert_eq!(ledger.find(FileDigestScope::CcInput, &vec![recorded.clone()]).unwrap(), vec![None]);
    // Recording the same path again replaces the earlier record.
    let newer = ledger_identity("src/lib.rs", 12, 5);
    ledger
        .record(FileDigestScope::Content, vec![RecordedFileDigest { file: newer.clone(), digest: ledger_digest(12) }])
        .unwrap();
    assert_eq!(ledger.len(), 1);
    assert_eq!(ledger.find(FileDigestScope::Content, &vec![recorded, newer]).unwrap(), vec![None, Some(ledger_digest(12))]);
}

#[test]
fn invalid_ledger_records_are_refused_whole() {
    let mut ledger = FileDigestLedger::new();
    let good = RecordedFileDigest { file: ledger_identity("a.rs", 12, 1), digest: ledger_digest(12) };
    let bad = RecordedFileDigest { file: ledger_identity("b.rs", 13, 1), digest: ledger_digest(12) };
    assert_eq!(
        ledger.record(FileDigestScope::Content, vec![good, bad]),
        Err(LedgerError::InvalidRecord(FileDigestError::LengthMismatch))
    );
    assert_eq!(ledger.len(), 0);
}

#[test]
fn seeded_file_digests_answer_lookups_and_yield_to_this_sessions_records() {
    let mut ledger = FileDigestLedger::new();
    let mine = RecordedFileDigest { file: ledger_identity("a.rs", 12, 2), digest: ledger_digest(12) };
    ledger.record(FileDigestScope::Content, vec![mine.clone()]).unwrap();
    let stale = RecordedFileDigest { file: ledger_identity("a.rs", 12, 1), digest: ledger_digest(12) };
    let other = RecordedFileDigest { file: ledger_identity("b.rs", 7, 1), digest: ledger_digest(7) };
    let invalid = RecordedFileDigest { file: ledger_identity("c.rs", 8, 1), digest: ledger_digest(7) };
    let seeded = ledger.seed(vec![
        (FileDigestScope::Content, stale),
        (FileDigestScope::Content, other.clone()),
        (FileDigestScope::Content, invalid),
    ]);
    assert_eq!(seeded, 1);
    assert_eq!(
        ledger.find(FileDigestScope::Content, &vec![mine.file.clone(), other.file.clone()]).unwrap(),
        vec![Some(ledger_digest(12)), Some(ledger_digest(7))]
    );
    assert_eq!(ledger.entries().len(), 2);
}

#[test]
fn surfaces_each_shim_warning_once() {
    let mut warnings = WarningLedger::new();
    assert_eq!(warnings.record("disk is slow".into()), Ok(true));
    assert_eq!(warnings.record("disk is slow".into()), Ok(false));
    assert_eq!(warnings.record("another".into()), Ok(true));
}

#[test]
fn rejects_malformed_shim_warnings() {
    let mut warnings = WarningLedger::new();
    assert_eq!(warnings.record(String::new()), Err(WarningError::InvalidWarning));
    assert_eq!(warnings.record("two\nlines".into()), Err(WarningError::InvalidWarning));
    assert_eq!(warnings.record("x".repeat(4097)), Err(WarningError::InvalidWarning));
    assert_eq!(warnings.record("x".repeat(4096)), Ok(true));
}

#[test]
fn stops_surfacing_shim_warnings_at_the_cap() {
    let mut warnings = WarningLedger::new();
    for index in 0..MAX_WARNINGS {
        assert_eq!(warnings.record(format!("warning {index}")), Ok(true));
    }
    assert_eq!(warnings.record("one too many".into()), Ok(false));
}

#[test]
fn recorded_predictions_track_what_changed() {
    let prediction = |name: &str, payload: &str| ActionPrediction {
        invocation: CacheDigest::blake3(name.as_bytes()),
        action: CacheDigest::blake3(name.as_bytes()),
        adapter: "rustc".into(),
        payload: payload.into(),
    };
    let mut state = TaskActionState::new();
    state.insert_prediction(prediction("a", "{}"));
    state.record_prediction(prediction("a", "{}")).unwrap();
    assert!(state.changed_predictions.is_empty());
    assert_eq!(state.pending_predictions.len(), 1);
    state.record_prediction(prediction("a", "{\"compiler_duration_ns\":1}")).unwrap();
    assert_eq!(state.changed_predictions, vec![CacheDigest::blake3(b"a")]);
    state.record_prediction(prediction("b", "{}")).unwrap();
    assert_eq!(state.predictions.len(), 2);
    assert_eq!(state.changed_predictions.len(), 2);
}

#[test]
fn a_read_counts_only_if_the_file_held_still() {
    let requested = ledger_identity("src/lib.rs", 12, 1);
    let moved = ledger_identity("src/lib.rs", 12, 2);
    let digest = ledger_digest(12);
    let (kept, record) = settle_resolution(&requested, FileDigestResolution::Digest(digest.clone()), Some(&requested));
    assert!(matches!(kept, FileDigestResolution::Digest(ref d) if *d == digest));
    assert!(record);
    let (kept, record) = settle_resolution(&requested, FileDigestResolution::Digest(digest.clone()), Some(&moved));
    assert!(matches!(kept, FileDigestResolution::Unresolved));
    assert!(!record);
    // A digest whose size disagrees with the identity is not trusted.
    let (kept, _) = settle_resolution(&requested, FileDigestResolution::Digest(ledger_digest(13)), Some(&requested));
    assert!(matches!(kept, FileDigestResolution::Unresolved));
    // No identity to compare after the read: nothing can be trusted.
    let (kept, _) = settle_resolution(&requested, FileDigestResolution::EmbeddedTimestampMacro, None);
    assert!(matches!(kept, FileDigestResolution::Unresolved));
    let (kept, record) = settle_resolution(&requested, FileDigestResolution::EmbeddedTimestampMacro, Some(&requested));
    assert!(matches!(kept, FileDigestResolution::EmbeddedTimestampMacro));
    assert!(!record);
}
