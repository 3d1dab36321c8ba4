use mbx_cache::agent::digest::CacheDigest;
use mbx_cache::agent::manifest::{
    merge_task_manifests, recorded_actions, update_task_predictions_in_order, validate_task_identity, validate_task_manifest,
    ManifestError,
};
use mbx_cache::agent::protocol::{
    is_task_identity, ActionPrediction, TaskActionManifest, MAX_TASK_ACTION_PREDICTIONS,
    TASK_ACTION_MANIFEST_VERSION,
};

fn prediction(name: &str) -> ActionPrediction {
    ActionPrediction {
        invocation: CacheDigest::blake3(name.as_bytes()),
        action: CacheDigest::blake3(format!("{name} action").as_bytes()),
        adapter: "rustc".into(),
        payload: "{}".into(),
    }
}

fn indexed(index: usize) -> ActionPrediction {
    let digest = CacheDigest::blake3(&index.to_le_bytes());
    ActionPrediction {
        invocation: digest.clone(),
        action: digest,
        adapter: "rustc".into(),
        payload: "{}".into(),
    }
}

fn manifest(task: &str, predictions: Vec<ActionPrediction>) -> TaskActionManifest {
    TaskActionManifest {
        version: TASK_ACTION_MANIFEST_VERSION,
        task: task.to_string(),
        predictions,
    }
}

#[test]
fn recognizes_only_well_formed_task_identities() {
    assert!(is_task_identity(&"a".repeat(64)));
    assert!(is_task_identity(&"0123456789abcdef".repeat(4)));
    assert!(!is_task_identity(&"A".repeat(64)));
    assert!(!is_task_identity(&"g".repeat(64)));
    assert!(!is_task_identity(&"a".repeat(63)));
    assert!(!is_task_identity(""));
}

#[test]
fn an_invalid_task_identity_is_refused_by_name() {
    assert_eq!(validate_task_identity(&"b".repeat(64)), Ok(()));
    let error = validate_task_identity("not-an-identity").unwrap_err();
    assert_eq!(error, ManifestError::InvalidTaskIdentity);
    assert_eq!(error.message(), "invalid task action identity");
}

#[test]
fn manifests_of_another_task_or_format_are_invalid() {
    let task = "7".repeat(64);
    assert_eq!(validate_task_manifest(&manifest(&task, vec![prediction("a")]), &task), Ok(()));
    assert_eq!(
        validate_task_manifest(&manifest(&"8".repeat(64), vec![]), &task),
        Err(ManifestError::InvalidManifest)
    );
    let mut future = manifest(&task, vec![]);
    future.version = 2;
    assert_eq!(validate_task_manifest(&future, &task), Err(ManifestError::InvalidManifest));
    let repeated = manifest(&task, vec![prediction("a"), prediction("a")]);
    assert_eq!(validate_task_manifest(&repeated, &task), Err(ManifestError::InvalidManifest));
}

#[test]
fn refreshed_predictions_move_to_the_back() {
    let history = vec![prediction("a"), prediction("b"), prediction("c")];
    let mut newer_b = prediction("b");
    newer_b.payload = "{\"compiler_duration_ns\":5}".into();
    let kept = update_task_predictions_in_order(history, vec![newer_b.clone()], &vec![]).unwrap();
    assert_eq!(kept, vec![prediction("a"), prediction("c"), newer_b]);
}

#[test]
fn the_oldest_unprotected_history_retires_first() {
    let history: Vec<_> = (0..MAX_TASK_ACTION_PREDICTIONS).map(indexed).collect();
    let protected = vec![indexed(0).invocation];
    let update = indexed(MAX_TASK_ACTION_PREDICTIONS);
    let kept = update_task_predictions_in_order(history, vec![update.clone()], &protected).unwrap();
    assert_eq!(kept.len(), MAX_TASK_ACTION_PREDICTIONS);
    // Entry 0 is protected, so entry 1 is the oldest that may go.
    assert_eq!(kept[0], indexed(0));
    assert_eq!(kept[1], indexed(2));
    assert_eq!(kept[kept.len() - 1], update);
}

#[test]
fn more_protected_invocations_than_a_manifest_holds_are_refused() {
    let protected: Vec<_> = (0..MAX_TASK_ACTION_PREDICTIONS + 1).map(|i| indexed(i).invocation).collect();
    let error = update_task_predictions_in_order(vec![], vec![], &protected).unwrap_err();
    assert_eq!(error, ManifestError::TooManyPredictions);
}

#[test]
fn required_updates_win_and_update_only_history_goes_first() {
    let task = "7".repeat(64);
    let mut base_b = prediction("b");
    base_b.payload = "{\"from\":\"base\"}".into();
    let base = manifest(&task, vec![prediction("a"), base_b.clone()]);
    let update = manifest(&task, vec![prediction("x"), prediction("b")]);
    let required = vec![prediction("b").invocation];
    let merged = merge_task_manifests(&task, base, update, &required, &vec![]).unwrap();
    assert_eq!(merged.version, TASK_ACTION_MANIFEST_VERSION);
    assert_eq!(merged.task, task);
    assert_eq!(merged.predictions, vec![prediction("x"), prediction("a"), prediction("b")]);
}

#[test]
fn a_fallback_yields_to_a_different_base_value() {
    let task = "7".repeat(64);
    let mut base_b = prediction("b");
    base_b.payload = "{\"from\":\"base\"}".into();
    let base = manifest(&task, vec![base_b.clone()]);
    let update = manifest(&task, vec![prediction("b"), prediction("c")]);
    let fallbacks = vec![prediction("b").invocation, prediction("c").invocation];
    let merged = merge_task_manifests(&task, base, update, &vec![], &fallbacks).unwrap();
    assert_eq!(merged.predictions, vec![base_b, prediction("c")]);
}

#[test]
fn merging_a_manifest_of_another_task_is_refused() {
    let task = "7".repeat(64);
    let base = manifest(&task, vec![]);
    let update = manifest(&"8".repeat(64), vec![]);
    assert_eq!(
        merge_task_manifests(&task, base, update, &vec![], &vec![]).unwrap_err(),
        ManifestError::InvalidManifest
    );
}

#[test]
fn merged_history_beyond_the_limit_retires_its_oldest_entry() {
    let task = "7".repeat(64);
    let update = manifest(&task, (0..MAX_TASK_ACTION_PREDICTIONS).map(indexed).collect());
    let base = manifest(&task, vec![indexed(MAX_TASK_ACTION_PREDICTIONS)]);
    let merged = merge_task_manifests(&task, base, update, &vec![], &vec![]).unwrap();
    assert_eq!(merged.predictions.len(), MAX_TASK_ACTION_PREDICTIONS);
    assert_eq!(merged.predictions[0], indexed(1));
    assert_eq!(merged.predictions[MAX_TASK_ACTION_PREDICTIONS - 1], indexed(MAX_TASK_ACTION_PREDICTIONS));
}

#[test]
fn a_manifest_index_lists_the_actions_of_a_valid_manifest_only() {
    let task = "a".repeat(64);
    let valid = manifest(&task, vec![prediction("one"), prediction("two")]);
    assert_eq!(
        recorded_actions(&valid, &task),
        vec![prediction("one").action, prediction("two").action]
    );
    assert!(recorded_actions(&valid, &"b".repeat(64)).is_empty());
    let mut future = manifest(&task, vec![prediction("one")]);
    future.version = TASK_ACTION_MANIFEST_VERSION + 1;
    assert!(recorded_actions(&future, &task).is_empty());
}
