use mbx_cache::agent::blob_fetch::{
    pack_request_bytes, partition_lookups, reserve_pack, BlobLookup, MAX_STAGED_BLOB_PACK_BYTES,
};
use mbx_cache::agent::budget::DownloadBudget;
use mbx_cache::agent::digest::CacheDigest;

fn digest(fill: &str, size: u64) -> CacheDigest {
    CacheDigest { algorithm: "blake3".into(), hash: fill.repeat(64), size }
}

#[test]
fn local_lookups_split_verified_blobs_from_downloads() {
    let digests = vec![digest("a", 1), digest("b", 2), digest("c", 3)];
    let lookups = vec![BlobLookup::Verified("/cas/a".to_string()), BlobLookup::Missing, BlobLookup::Failed];
    let (found, fetch) = partition_lookups(&digests, &lookups, false);
    assert_eq!(found, vec![(digest("a", 1), "/cas/a".to_string())]);
    assert_eq!(fetch, vec![digest("b", 2)]);
}

#[test]
fn a_failed_lookup_under_the_write_lock_is_downloaded() {
    let digests = vec![digest("a", 1), digest("b", 2), digest("c", 3)];
    let lookups = vec![BlobLookup::Missing, BlobLookup::Failed, BlobLookup::Verified("/cas/c".to_string())];
    let (found, fetch) = partition_lookups(&digests, &lookups, true);
    assert_eq!(found, vec![(digest("c", 3), "/cas/c".to_string())]);
    assert_eq!(fetch, vec![digest("a", 1), digest("b", 2)]);
}

#[test]
fn a_pack_asks_for_the_total_length_of_its_blobs() {
    assert_eq!(pack_request_bytes(&vec![digest("a", 10), digest("b", 32)]), 42);
    assert_eq!(pack_request_bytes(&vec![]), 0);
}

#[test]
fn a_pack_asks_for_no_more_than_one_pack_stages() {
    assert_eq!(
        pack_request_bytes(&vec![digest("a", MAX_STAGED_BLOB_PACK_BYTES), digest("b", 1)]),
        MAX_STAGED_BLOB_PACK_BYTES
    );
    assert_eq!(pack_request_bytes(&vec![digest("a", u64::MAX), digest("b", u64::MAX)]), MAX_STAGED_BLOB_PACK_BYTES);
}

#[test]
fn a_pack_takes_what_is_left_of_the_budget() {
    let mut budget = DownloadBudget::new(100);
    budget.reserve(70).unwrap();
    let reservation = reserve_pack(&mut budget, &vec![digest("a", 50)]).unwrap();
    assert_eq!(reservation.bytes(), 30);
    assert_eq!(budget.used(), 100);
    assert!(reserve_pack(&mut budget, &vec![digest("b", 1)]).is_none());
    assert_eq!(budget.used(), 100);
}
