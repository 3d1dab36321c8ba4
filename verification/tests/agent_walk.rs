use mbx_cache::agent::digest::CacheDigest;
use mbx_cache::agent::validate::DirectoryListing;
use mbx_cache::agent::walk::{prefetch_step, PrefetchWalk, WalkAction, WalkEvent};

fn digest(fill: &str, size: u64) -> CacheDigest {
    CacheDigest { algorithm: "blake3".into(), hash: fill.repeat(64), size }
}

/// Step until the walk needs something from outside.
fn run(mut walk: PrefetchWalk) -> (PrefetchWalk, WalkAction) {
    loop {
        let (next, action) = prefetch_step(&walk, &WalkEvent::Proceed);
        walk = next;
        if !matches!(action, WalkAction::Continue) {
            return (walk, action);
        }
    }
}

#[test]
fn an_output_tree_is_walked_a_wave_at_a_time_and_downloaded_in_batches() {
    let (root, file_a, file_b, child, leaf) =
        (digest("1", 10), digest("2", 20), digest("3", 30), digest("4", 40), digest("5", 50));
    let walk = PrefetchWalk::new(vec![root.clone()], Vec::new(), &vec![root.clone()]);

    let (walk, action) = run(walk);
    assert!(matches!(&action, WalkAction::Parse(d) if *d == root));
    let listing = DirectoryListing { files: vec![file_a.clone(), file_b.clone()], directories: vec![child.clone()] };
    let (walk, _) = prefetch_step(&walk, &WalkEvent::Parsed(Some(listing)));

    // The wave ends with one batch: the files and the subdirectory object.
    let (walk, action) = run(walk);
    match &action {
        WalkAction::Download(batch) => assert_eq!(batch, &vec![file_a.clone(), file_b.clone(), child.clone()]),
        other => panic!("unexpected {other:?}"),
    }
    let (walk, _) = prefetch_step(&walk, &WalkEvent::Downloaded(vec![file_a.clone(), file_b.clone(), child.clone()]));

    // The next wave takes the subdirectory.
    let (walk, action) = run(walk);
    assert!(matches!(&action, WalkAction::Parse(d) if *d == child));
    let listing = DirectoryListing { files: vec![file_a.clone(), leaf.clone()], directories: vec![] };
    let (walk, _) = prefetch_step(&walk, &WalkEvent::Parsed(Some(listing)));

    // A file already verified is not downloaded again.
    let (walk, action) = run(walk);
    match &action {
        WalkAction::Download(batch) => assert_eq!(batch, &vec![leaf.clone()]),
        other => panic!("unexpected {other:?}"),
    }
    let (walk, _) = prefetch_step(&walk, &WalkEvent::Downloaded(vec![leaf.clone()]));
    let (walk, action) = run(walk);
    assert!(matches!(action, WalkAction::Done));
    assert_eq!(walk.verified(), vec![root, file_a, file_b, child, leaf]);
}

#[test]
fn a_directory_that_cannot_be_parsed_ends_its_branch() {
    let root = digest("1", 10);
    let walk = PrefetchWalk::new(vec![], Vec::new(), &vec![root.clone(), root.clone()]);
    let (walk, action) = run(walk);
    assert!(matches!(&action, WalkAction::Parse(d) if *d == root));
    let (walk, _) = prefetch_step(&walk, &WalkEvent::Parsed(None));
    let (_, action) = run(walk);
    assert!(matches!(action, WalkAction::Done));
}
