use mbx_cache::agent::commit::{commit_predictions, publishable_predictions};
use mbx_cache::agent::digest::CacheDigest;
use mbx_cache::agent::protocol::ActionPrediction;

fn prediction(invocation: &str, action: &str) -> ActionPrediction {
    ActionPrediction {
        invocation: CacheDigest::blake3(invocation.as_bytes()),
        action: CacheDigest::blake3(action.as_bytes()),
        adapter: "rustc".into(),
        payload: "{}".into(),
    }
}

fn sorted(mut ps: Vec<ActionPrediction>) -> Vec<ActionPrediction> {
    ps.sort_by(|a, b| (a.invocation.size, &a.invocation.hash).cmp(&(b.invocation.size, &b.invocation.hash)));
    ps
}

#[test]
fn a_commit_lays_the_run_over_the_stored_manifest() {
    let stored = vec![prediction("a", "a1"), prediction("b", "b1")];
    let run = vec![prediction("b", "b2"), prediction("c", "c1")];
    let (merged, introduced) = commit_predictions(&stored, &run);
    assert_eq!(merged, sorted(vec![prediction("a", "a1"), prediction("b", "b2"), prediction("c", "c1")]));
    assert_eq!(introduced, vec![CacheDigest::blake3(b"c")]);
}

#[test]
fn the_last_stored_prediction_for_an_invocation_stands() {
    let stored = vec![prediction("a", "old"), prediction("a", "new")];
    let (merged, introduced) = commit_predictions(&stored, &vec![]);
    assert_eq!(merged, vec![prediction("a", "new")]);
    assert!(introduced.is_empty());
}

#[test]
fn only_introduced_predictions_whose_results_are_missing_are_withheld() {
    let inherited = prediction("a", "a1");
    let published = prediction("b", "b1");
    let missing = prediction("c", "c1");
    let all = vec![inherited.clone(), published.clone(), missing.clone()];
    let introduced = vec![published.invocation.clone(), missing.invocation.clone()];
    // The inherited action is not on the server either, but it stays.
    let unpublished = vec![inherited.action.clone(), missing.action.clone()];
    assert_eq!(publishable_predictions(&all, &introduced, &unpublished), vec![inherited, published]);
}
