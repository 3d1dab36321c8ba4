use mbx_cache::agent::batches::{absorb_batch_answer, prefetch_batches, wanted_actions, BatchAnswer, BatchState};
use mbx_cache::agent::prefetch::PrefetchCandidate;
use mbx_cache::agent::blob_fetch::BlobLookup;
use mbx_cache::agent::commit::{commit_task_plan, CommitPlan};
use mbx_cache::agent::digest::CacheDigest;
use mbx_cache::agent::fetch::{fetch_step, FetchAction, FetchEvent, FetchState};
use mbx_cache::agent::manifest::ManifestError;
use mbx_cache::agent::protocol::{ActionPrediction, TaskActionManifest, TASK_ACTION_MANIFEST_VERSION};
use mbx_cache::agent::respond::respond;
use mbx_cache::agent::runs::{begin_task_step, commit_task_step, run_identity, TaskRuns};
use mbx_cache::agent::stats::AgentStats;
use mbx_cache::agent::wire::{AgentRequest, AgentResponse};

fn digest(fill: &str, size: u64) -> CacheDigest {
    CacheDigest { algorithm: "blake3".into(), hash: fill.repeat(64), size }
}

fn prediction(invocation: &str, action: &str) -> ActionPrediction {
    ActionPrediction {
        invocation: CacheDigest::blake3(invocation.as_bytes()),
        action: CacheDigest::blake3(action.as_bytes()),
        adapter: "rustc".into(),
        payload: "{}".into(),
    }
}

fn names(action: &FetchAction) -> Vec<CacheDigest> {
    match action {
        FetchAction::LockChunk(ds) | FetchAction::AskPack(ds) | FetchAction::FetchEach(ds) => ds.clone(),
        FetchAction::Done => Vec::new(),
    }
}

#[test]
fn a_fetch_keeps_local_blobs_packs_the_rest_and_fetches_what_no_pack_brought() {
    let (a, b, c, d) = (digest("a", 1), digest("b", 2), digest("c", 3), digest("d", 4));
    let (state, action) = FetchState::start(
        &vec![a.clone(), b.clone(), c.clone(), d.clone()],
        &vec![BlobLookup::Verified("/cas/a".into()), BlobLookup::Missing, BlobLookup::Missing, BlobLookup::Failed],
    );
    assert!(matches!(action, FetchAction::LockChunk(_)));
    assert_eq!(names(&action), vec![b.clone(), c.clone()]);

    // Under the lock, `b` turned up locally; `c` is asked of the remote.
    let (state, action) =
        fetch_step(&state, &FetchEvent::Locked(vec![(b.clone(), Some("/cas/b".into())), (c.clone(), None)]));
    assert!(matches!(action, FetchAction::AskPack(_)));
    assert_eq!(names(&action), vec![c.clone()]);

    // The pack came back, but `c` could not be ingested: it is fetched alone.
    let (state, action) = fetch_step(&state, &FetchEvent::PackArrived(vec![(c.clone(), None)]));
    assert!(matches!(action, FetchAction::FetchEach(_)));
    assert_eq!(names(&action), vec![c.clone()]);

    let (state, action) = fetch_step(&state, &FetchEvent::Fetched(vec![(c.clone(), Some("/cas/c".into()))]));
    assert!(matches!(action, FetchAction::Done));
    assert_eq!(
        state.verified(),
        vec![(a, "/cas/a".to_string()), (b, "/cas/b".to_string()), (c, "/cas/c".to_string())]
    );
}

#[test]
fn a_refused_pack_falls_back_to_single_fetches() {
    let (a, b) = (digest("a", 1), digest("b", 2));
    let (state, _) = FetchState::start(&vec![a.clone(), b.clone()], &vec![BlobLookup::Missing, BlobLookup::Missing]);
    let (state, action) = fetch_step(&state, &FetchEvent::Locked(vec![(a.clone(), None)]));
    assert_eq!(names(&action), vec![a.clone()]);
    let (state, action) = fetch_step(&state, &FetchEvent::PackRefused);
    assert!(matches!(action, FetchAction::FetchEach(_)));
    assert_eq!(names(&action), vec![a.clone(), b.clone()]);
    let (state, action) = fetch_step(&state, &FetchEvent::Fetched(vec![(b.clone(), Some("/cas/b".into()))]));
    assert!(matches!(action, FetchAction::Done));
    assert_eq!(state.verified(), vec![(b, "/cas/b".to_string())]);
}

#[test]
fn a_pack_the_remote_would_not_size_sends_its_blobs_alone() {
    let a = digest("a", 1);
    let (state, _) = FetchState::start(&vec![a.clone()], &vec![BlobLookup::Missing]);
    let (state, _) = fetch_step(&state, &FetchEvent::Locked(vec![(a.clone(), None)]));
    let (_, action) = fetch_step(&state, &FetchEvent::PackArrived(vec![]));
    assert!(matches!(action, FetchAction::FetchEach(_)));
    assert_eq!(names(&action), vec![a]);
}

#[test]
fn batches_hold_the_unstaged_actions_in_order() {
    let ranked: Vec<(CacheDigest, String)> =
        ["a", "b", "c", "d", "e"].iter().map(|f| (digest(f, 1), "rustc".to_string())).collect();
    let wanted = wanted_actions(&ranked, &vec![false, true, false, false, false]);
    assert_eq!(wanted.len(), 4);
    assert_eq!(wanted[1].0, digest("c", 1));
    let batches = prefetch_batches(&wanted, 3);
    assert_eq!(batches.len(), 2);
    assert_eq!(batches[0].len(), 3);
    assert_eq!(batches[1], vec![(digest("e", 1), "rustc".to_string())]);
    assert!(prefetch_batches(&Vec::new(), 3).is_empty());
}

#[test]
fn an_unchanged_run_without_a_remote_writer_keeps_the_manifest() {
    let task = "a".repeat(64);
    let plan = commit_task_plan(&task, &vec![prediction("one", "x")], &vec![prediction("two", "y")], false, false).unwrap();
    match plan {
        CommitPlan::Keep { completed } => assert_eq!(completed, vec![prediction("two", "y")]),
        CommitPlan::Write { .. } => panic!("an unchanged run keeps the manifest"),
    }
}

#[test]
fn a_changed_run_writes_the_stored_manifest_with_its_predictions_over_it() {
    let task = "a".repeat(64);
    let stored = vec![prediction("one", "x")];
    let run = vec![prediction("one", "y"), prediction("two", "z")];
    match commit_task_plan(&task, &stored, &run, true, false).unwrap() {
        CommitPlan::Write { manifest, introduced, completed } => {
            assert_eq!(completed, run);
            assert_eq!(manifest.task, task);
            assert_eq!(manifest.version, TASK_ACTION_MANIFEST_VERSION);
            assert_eq!(manifest.predictions.len(), 2);
            assert!(manifest.predictions.contains(&prediction("one", "y")));
            assert_eq!(introduced, vec![CacheDigest::blake3(b"two")]);
        }
        CommitPlan::Keep { .. } => panic!("a changed run writes"),
    }
    assert_eq!(
        commit_task_plan("not-a-task", &stored, &run, true, false).unwrap_err(),
        ManifestError::InvalidTaskIdentity
    );
}

#[test]
fn a_task_begins_from_its_manifest_under_a_generated_run() {
    let task = "b".repeat(64);
    let mut runs = TaskRuns::new();
    let manifest = TaskActionManifest {
        version: TASK_ACTION_MANIFEST_VERSION,
        task: task.clone(),
        predictions: vec![prediction("one", "x")],
    };
    let mut stats = AgentStats::default();
    let run = begin_task_step(&mut runs, &mut stats, &task, Some(manifest), None, None, 42, 7).unwrap();
    assert_eq!(stats.predictions_loaded, 1);
    assert_eq!(run, run_identity(&task, 42, 7));
    assert_eq!(run, CacheDigest::blake3(format!("{task}\0{}\0{}", 42, 7).as_bytes()).hash);
    assert_ne!(run_identity(&task, 42, 8), run);
    assert_eq!(begin_task_step(&mut runs, &mut stats, &task, None, None, Some(task.clone()), 42, 8).unwrap(), task);
    // The largest baseline stands, not the last one.
    assert_eq!(stats.predictions_loaded, 1);
}

#[test]
fn a_task_that_is_not_an_identity_or_whose_manifest_is_invalid_does_not_begin() {
    let task = "b".repeat(64);
    let mut runs = TaskRuns::new();
    assert_eq!(
        begin_task_step(&mut runs, &mut AgentStats::default(), "nope", None, None, None, 1, 1).unwrap_err(),
        ManifestError::InvalidTaskIdentity
    );
    let foreign = TaskActionManifest { version: TASK_ACTION_MANIFEST_VERSION, task: "c".repeat(64), predictions: vec![] };
    assert_eq!(
        begin_task_step(&mut runs, &mut AgentStats::default(), &task, Some(foreign), None, None, 1, 1).unwrap_err(),
        ManifestError::InvalidManifest
    );
}

fn record(stats: &mut AgentStats, outcome: &str, crate_name: &str, duration_ns: u64) -> Option<AgentResponse> {
    respond(
        stats,
        &AgentRequest::RecordCompilerInvocation {
            outcome: outcome.into(),
            crate_name: Some(crate_name.into()),
            duration_ns,
        },
    )
}

#[test]
fn records_compiler_time_by_outcome_and_crate() {
    let mut stats = AgentStats::default();
    for (outcome, name, duration) in
        [("miss", "slow_crate", 17), ("miss", "slow_crate", 5), ("bypass", "linked_bin", 11), ("verification", "not_uncached", 7)]
    {
        assert!(matches!(record(&mut stats, outcome, name, duration), Some(AgentResponse::CompilerInvocationRecorded)));
    }
    let miss = stats.compiler_stats("miss").unwrap();
    assert_eq!((miss.invocations, miss.duration_ns), (2, 22));
    assert_eq!(stats.compiler_stats("bypass").unwrap().duration_ns, 11);
    assert_eq!(stats.crate_duration("slow_crate"), Some(22));
    assert_eq!(stats.crate_duration("linked_bin"), Some(11));
    assert_eq!(stats.crate_duration("not_uncached"), None);
    let before = stats.clone();
    match record(&mut stats, "invented", "x", 1) {
        Some(AgentResponse::Error { message }) => assert_eq!(message, "invalid compiler invocation outcome"),
        other => panic!("unexpected {other:?}"),
    }
    assert_eq!(stats, before);
}

#[test]
fn the_agent_answers_statistics_requests_and_leaves_the_rest() {
    let mut stats = AgentStats::default();
    assert!(matches!(
        respond(&mut stats, &AgentRequest::RecordBypass { kind: "linking".into() }),
        Some(AgentResponse::BypassRecorded)
    ));
    assert_eq!(stats.bypass_count("linking"), Some(1));
    assert!(matches!(respond(&mut stats, &AgentRequest::RecordUnconsulted), Some(AgentResponse::UnconsultedRecorded)));
    assert_eq!(stats.unconsulted, 1);
    let restore = stats_restore(5);
    assert!(matches!(
        respond(&mut stats, &AgentRequest::RecordActionVerification { matched: false, restore }),
        Some(AgentResponse::ActionVerificationRecorded)
    ));
    assert_eq!((stats.verifications, stats.divergences, stats.materialization_duration_ns), (1, 1, 5));
    match respond(&mut stats, &AgentRequest::Hello { protocol: 1, client_version: "x".into() }) {
        Some(AgentResponse::Error { message }) => assert_eq!(message, "hello is only valid as the first request"),
        other => panic!("unexpected {other:?}"),
    }
    assert!(respond(&mut stats, &AgentRequest::BeginTask { task: "t".into() }).is_none());
}

fn stats_restore(duration_ns: u64) -> mbx_cache::agent::stats::RestoreStats {
    let mut restore = mbx_cache::agent::stats::RestoreStats::default();
    restore.duration_ns = duration_ns;
    restore
}

#[test]
fn commit_receipt_contains_this_runs_predictions_not_its_baseline() {
    let task = "d".repeat(64);
    let first = prediction("first", "a");
    let second = prediction("second", "b");
    let mut runs = TaskRuns::new();
    let mut stats = AgentStats::default();
    let manifest =
        TaskActionManifest { version: TASK_ACTION_MANIFEST_VERSION, task: task.clone(), predictions: vec![first.clone()] };
    let run = begin_task_step(&mut runs, &mut stats, &task, Some(manifest), None, None, 1, 1).unwrap();
    runs.record_prediction(&run, second.clone()).unwrap();
    match commit_task_step(&mut runs, &run, &vec![first.clone()], false).unwrap() {
        CommitPlan::Write { manifest, completed, .. } => {
            assert_eq!(completed, vec![second.clone()]);
            assert_eq!(manifest.predictions.len(), 2);
        }
        CommitPlan::Keep { .. } => panic!("a run that predicted something new writes"),
    }
    // The run is over: committing it again is refused.
    assert_eq!(
        commit_task_step(&mut runs, &run, &vec![first.clone()], false).unwrap_err(),
        ManifestError::BaselineNotLoaded
    );
}

#[test]
fn a_run_whose_baseline_was_not_loaded_is_not_committed() {
    let run = "e".repeat(64);
    let mut runs = TaskRuns::new();
    runs.record_prediction(&run, prediction("x", "y")).unwrap();
    assert_eq!(commit_task_step(&mut runs, &run, &vec![], true).unwrap_err(), ManifestError::BaselineNotLoaded);
    assert_eq!(commit_task_step(&mut runs, "short", &vec![], true).unwrap_err(), ManifestError::InvalidTaskIdentity);
}

#[test]
fn batch_answers_stage_candidate_results_the_store_lacks() {
    let candidates = vec![
        (digest("a", 1), PrefetchCandidate { adapter: "rustc".into(), priority: 5 }),
        (digest("b", 1), PrefetchCandidate { adapter: "cc".into(), priority: 3 }),
    ];
    let state = BatchState { answered: true, staged: Vec::new() };
    let answer = BatchAnswer::Results(vec![(digest("b", 1), false), (digest("z", 1), false), (digest("a", 1), true)]);
    let state = absorb_batch_answer(state, &candidates, &answer);
    assert!(state.answered);
    assert_eq!(state.staged, vec![(digest("b", 1), "cc".to_string())]);
    let state = absorb_batch_answer(state, &candidates, &BatchAnswer::Unavailable);
    assert!(!state.answered);
    assert_eq!(state.staged.len(), 1);
    let state = absorb_batch_answer(state, &candidates, &BatchAnswer::Failed);
    assert!(!state.answered);
}
