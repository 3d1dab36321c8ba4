use mbx_cache::agent::digest::CacheDigest;
use mbx_cache::agent::prefetch::{
    prediction_priority, ranked_prefetch_actions, select_prefetch_actions, MAX_PREFETCH_ACTIONS,
};
use mbx_cache::agent::protocol::ActionPrediction;
use mbx_cache::agent::session::{
    activate_prediction_adapter, queue_prefetch_digest, queue_prefetch_directory, TaskActionState,
};

#[test]
fn a_matching_prediction_activates_only_its_adapter_once() {
    let rustc_first = ActionPrediction {
        invocation: CacheDigest::blake3(b"first rustc invocation"),
        action: CacheDigest::blake3(b"first rustc action"),
        adapter: "rustc".into(),
        payload: "{}".into(),
    };
    let rustc_second = ActionPrediction {
        invocation: CacheDigest::blake3(b"second rustc invocation"),
        action: CacheDigest::blake3(b"second rustc action"),
        adapter: "rustc".into(),
        payload: "{}".into(),
    };
    let cc = ActionPrediction {
        invocation: CacheDigest::blake3(b"cc invocation"),
        action: CacheDigest::blake3(b"cc action"),
        adapter: "cc".into(),
        payload: "{}".into(),
    };
    let mut state = TaskActionState::new();
    for prediction in [&rustc_first, &rustc_second, &cc] {
        state.insert_prediction(prediction.clone());
    }

    let (prediction, prefetch) =
        activate_prediction_adapter(&mut state, &CacheDigest::blake3(b"stale invocation"));
    assert_eq!(prediction, None);
    assert_eq!(prefetch, None);
    assert!(state.prefetched_adapters.is_empty());

    let (prediction, prefetch) = activate_prediction_adapter(&mut state, &rustc_first.invocation);
    assert_eq!(prediction, Some(rustc_first.clone()));
    let prefetch = prefetch.unwrap();
    assert_eq!(prefetch.len(), 2);
    assert!(
        prefetch
            .iter()
            .all(|prediction| prediction.adapter == "rustc")
    );

    let (prediction, prefetch) = activate_prediction_adapter(&mut state, &rustc_second.invocation);
    assert_eq!(prediction, Some(rustc_second));
    assert_eq!(prefetch, None, "one adapter starts only one prefetch wave");

    let (prediction, prefetch) = activate_prediction_adapter(&mut state, &cc.invocation);
    assert_eq!(prediction, Some(cc.clone()));
    assert_eq!(prefetch, Some(vec![cc]));
}

#[test]
fn predictions_are_kept_in_invocation_order_and_replaced_by_invocation() {
    let mut state = TaskActionState::new();
    let names = ["delta", "alpha", "charlie", "bravo"];
    for name in names {
        state.insert_prediction(ActionPrediction {
            invocation: CacheDigest::blake3(name.as_bytes()),
            action: CacheDigest::blake3(name.as_bytes()),
            adapter: "rustc".into(),
            payload: "{}".into(),
        });
    }
    assert_eq!(state.predictions.len(), 4);
    for pair in state.predictions.windows(2) {
        assert!(pair[0].invocation < pair[1].invocation);
    }
    let replacement = ActionPrediction {
        invocation: CacheDigest::blake3(b"alpha"),
        action: CacheDigest::blake3(b"other"),
        adapter: "cc".into(),
        payload: "{}".into(),
    };
    state.insert_prediction(replacement.clone());
    assert_eq!(state.predictions.len(), 4);
    assert!(state.predictions.contains(&replacement));
}

#[test]
fn directory_queue_counts_only_unique_unseen_nodes() {
    let shared = CacheDigest::blake3(b"shared");
    let first = CacheDigest::blake3(b"first");
    let second = CacheDigest::blake3(b"second");
    let overflow = CacheDigest::blake3(b"overflow");
    let seen = vec![shared.clone()];
    let mut pending = Vec::new();

    assert!(queue_prefetch_directory(&seen, &mut pending, shared, 3));
    assert!(pending.is_empty());
    assert!(queue_prefetch_directory(&seen, &mut pending, first.clone(), 3));
    assert!(queue_prefetch_directory(&seen, &mut pending, first, 3));
    assert!(queue_prefetch_directory(&seen, &mut pending, second, 3));
    assert!(!queue_prefetch_directory(&seen, &mut pending, overflow, 3));
    assert_eq!(pending.len(), 2);
}

#[test]
fn a_verified_or_queued_digest_is_not_queued_again() {
    let verified = vec![CacheDigest::blake3(b"verified")];
    let mut pending = Vec::new();
    queue_prefetch_digest(&verified, &mut pending, CacheDigest::blake3(b"verified"));
    assert!(pending.is_empty());
    queue_prefetch_digest(&verified, &mut pending, CacheDigest::blake3(b"new"));
    queue_prefetch_digest(&verified, &mut pending, CacheDigest::blake3(b"new"));
    assert_eq!(pending, vec![CacheDigest::blake3(b"new")]);
}

fn timed(index: usize, duration: u64) -> ActionPrediction {
    ActionPrediction {
        invocation: CacheDigest::blake3(format!("invocation-{index}").as_bytes()),
        action: CacheDigest::blake3(format!("action-{index}").as_bytes()),
        adapter: "rustc".into(),
        payload: format!("{{\"compiler_duration_ns\":{duration}}}"),
    }
}

#[test]
fn prefetch_selection_keeps_the_most_expensive_predictions() {
    let predictions = (0..MAX_PREFETCH_ACTIONS + 8)
        .map(|index| timed(index, index as u64))
        .collect::<Vec<_>>();

    let selected = select_prefetch_actions(&predictions);
    let contains = |action: &CacheDigest| selected.iter().any(|(key, _)| key == action);

    assert_eq!(selected.len(), MAX_PREFETCH_ACTIONS);
    for prediction in predictions.iter().take(8) {
        assert!(!contains(&prediction.action));
    }
    for prediction in predictions.iter().skip(8) {
        assert!(contains(&prediction.action));
    }
}

#[test]
fn non_rustc_predictions_are_not_starved_by_the_rustc_cap() {
    let mut predictions = (0..MAX_PREFETCH_ACTIONS)
        .map(|index| timed(index, u64::MAX - 1))
        .collect::<Vec<_>>();
    let task = ActionPrediction {
        invocation: CacheDigest::blake3(b"task invocation"),
        action: CacheDigest::blake3(b"task action"),
        adapter: "task".into(),
        payload: "{}".into(),
    };
    predictions.push(task.clone());

    let selected = select_prefetch_actions(&predictions);

    assert_eq!(selected.len(), MAX_PREFETCH_ACTIONS);
    assert!(selected.iter().any(|(key, _)| *key == task.action));
}

#[test]
fn priorities_come_from_recorded_compiler_time() {
    assert_eq!(prediction_priority(&timed(0, 42)), 42);
    let mut unparsable = timed(0, 42);
    unparsable.payload = "not json".into();
    assert_eq!(prediction_priority(&unparsable), 0);
    let mut cc = timed(0, 7);
    cc.adapter = "cc".into();
    assert_eq!(prediction_priority(&cc), 7);
    let mut script = timed(0, 7);
    script.adapter = "build-script".into();
    assert_eq!(prediction_priority(&script), u64::MAX);
}

#[test]
fn an_action_keeps_its_first_highest_priority_prediction() {
    let mut slow = timed(1, 9);
    slow.action = CacheDigest::blake3(b"shared");
    let mut fast = timed(2, 3);
    fast.action = CacheDigest::blake3(b"shared");
    let mut tie = timed(3, 9);
    tie.action = CacheDigest::blake3(b"shared");
    tie.adapter = "cc".into();
    let selected = select_prefetch_actions(&vec![fast, slow, tie]);
    assert_eq!(selected.len(), 1);
    assert_eq!(selected[0].1.priority, 9);
    assert_eq!(selected[0].1.adapter, "rustc");
}

#[test]
fn ranked_actions_put_the_most_expensive_first() {
    let predictions = vec![timed(0, 5), timed(1, 50), timed(2, 5)];
    let selected = select_prefetch_actions(&predictions);
    let ranked = ranked_prefetch_actions(&selected);
    assert_eq!(ranked.len(), 3);
    assert_eq!(ranked[0].0, predictions[1].action);
    let (low, high) = if predictions[0].action < predictions[2].action {
        (&predictions[0], &predictions[2])
    } else {
        (&predictions[2], &predictions[0])
    };
    assert_eq!(ranked[1].0, low.action);
    assert_eq!(ranked[2].0, high.action);
    assert!(ranked.iter().all(|(_, adapter)| adapter == "rustc"));
}

#[test]
fn a_recorded_prediction_is_what_a_lookup_finds() {
    let first = ActionPrediction {
        invocation: CacheDigest::blake3(b"invocation"),
        action: CacheDigest::blake3(b"first action"),
        adapter: "rustc".into(),
        payload: "{}".into(),
    };
    let second = ActionPrediction { action: CacheDigest::blake3(b"second action"), ..first.clone() };
    let mut state = TaskActionState::new();
    assert_eq!(state.find_prediction(&first.invocation), None);
    state.record_prediction(first.clone()).unwrap();
    assert_eq!(state.find_prediction(&first.invocation), Some(first.clone()));
    // A later recording for the same invocation replaces the earlier one.
    state.record_prediction(second.clone()).unwrap();
    assert_eq!(state.find_prediction(&first.invocation), Some(second));
    assert_eq!(state.find_prediction(&CacheDigest::blake3(b"other")), None);
}
