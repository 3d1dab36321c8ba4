use mbx_cache::agent::fallback::{fallback_candidates, inheritable, newest_task_identities, NEWEST_MANIFEST_CANDIDATES};
use mbx_cache::agent::protocol::MAX_TASK_ACTION_PREDICTIONS;

fn manifest(identity: &str, seconds: u64) -> (String, (u64, u32)) {
    (format!("{identity}.json"), (seconds, 0))
}

#[test]
fn the_newest_manifest_in_the_store_is_the_last_resort() {
    let older = "5".repeat(64);
    let newer = "6".repeat(64);
    let current = "7".repeat(64);
    let huge = "9".repeat(64);
    let now = 1_700_000_000;
    let listing = vec![manifest(&older, now - 120), manifest(&newer, now - 60), manifest(&huge, now - 30)];
    let newest = newest_task_identities(&listing);
    assert_eq!(newest, vec![huge.clone(), newer.clone(), older.clone()]);

    let named = vec!["8".repeat(64)];
    let candidates = fallback_candidates(&current, &named, &newest);
    assert_eq!(
        candidates,
        vec![("8".repeat(64), true), (huge.clone(), false), (newer.clone(), false), (older.clone(), false)]
    );
    // The named identity has no manifest; the huge one would leave this
    // workspace no room; the next newest is adopted.
    assert!(!inheritable(MAX_TASK_ACTION_PREDICTIONS / 2 + 1, false));
    assert!(inheritable(1, false));
}

#[test]
fn only_manifest_files_with_task_identities_are_offered_newest_first() {
    let a = "a".repeat(64);
    let b = "b".repeat(64);
    let listing = vec![
        manifest(&a, 10),
        manifest(&b, 10),
        ("notes.txt".to_string(), (99, 0)),
        (format!("{}.json", "A".repeat(64)), (99, 0)),
        (format!("{a}.json.lock"), (99, 0)),
    ];
    // Written at the same moment: the greater identity first.
    assert_eq!(newest_task_identities(&listing), vec![b, a]);
}

#[test]
fn at_most_the_newest_few_manifests_are_offered() {
    let listing: Vec<(String, (u64, u32))> =
        (0..12u64).map(|index| manifest(&format!("{index:x}").repeat(64), 100 + index)).collect();
    let newest = newest_task_identities(&listing);
    assert_eq!(newest.len(), NEWEST_MANIFEST_CANDIDATES);
    assert_eq!(newest[0], "b".repeat(64));
    assert_eq!(newest[7], "4".repeat(64));
}

#[test]
fn each_identity_is_tried_once_and_never_the_task_itself() {
    let task = "1".repeat(64);
    let other = "2".repeat(64);
    let named = vec![other.clone(), task.clone(), "not-an-identity".to_string(), other.clone()];
    let newest = vec![other.clone(), "3".repeat(64)];
    assert_eq!(fallback_candidates(&task, &named, &newest), vec![(other, true), ("3".repeat(64), false)]);
    assert!(!inheritable(0, true));
    assert!(inheritable(MAX_TASK_ACTION_PREDICTIONS, true));
}
