//! The decisions of fetching blobs from a remote store: which requested blobs
//! the local store already holds, which go into a blob pack, and how many
//! bytes of the download budget a pack may take.
use vstd::prelude::*;
use crate::agent::budget::{DownloadBudget, DownloadReservation};
use crate::agent::digest::{CacheDigest, DigestView};

verus! {

/// Most bytes one blob pack stages.
pub const MAX_STAGED_BLOB_PACK_BYTES: u64 = 268435456;

/// What the local store answered for one blob.
#[derive(Debug, Clone)]
pub enum BlobLookup {
    /// A verified copy is at this path.
    Verified(String),
    /// The store holds no verified copy.
    Missing,
    /// The lookup itself failed.
    Failed,
}

/// A lookup answer as plain values.
pub ghost enum LookupView {
    Verified(Seq<char>),
    Missing,
    Failed,
}

impl View for BlobLookup {
    type V = LookupView;

    open spec fn view(&self) -> LookupView {
        match self {
            BlobLookup::Verified(p) => LookupView::Verified(p@),
            BlobLookup::Missing => LookupView::Missing,
            BlobLookup::Failed => LookupView::Failed,
        }
    }
}

/// Digests as plain values.
pub open spec fn digest_views(ds: Seq<CacheDigest>) -> Seq<DigestView> {
    ds.map_values(|d: CacheDigest| d@)
}

/// Lookup answers as plain values.
pub open spec fn lookup_views(ls: Seq<BlobLookup>) -> Seq<LookupView> {
    ls.map_values(|l: BlobLookup| l@)
}

/// The blobs found verified, each with its path, in the order asked.
pub open spec fn found_blobs(ds: Seq<DigestView>, ls: Seq<LookupView>) -> Seq<(DigestView, Seq<char>)>
    decreases ds.len(),
{
    if ds.len() == 0 || ls.len() == 0 {
        Seq::empty()
    } else {
        let rest = found_blobs(ds.drop_last(), ls.drop_last());
        match ls.last() {
            LookupView::Verified(p) => rest.push((ds.last(), p)),
            _ => rest,
        }
    }
}

/// The blobs still to download, in the order asked: those the store lacks,
/// and, where `retry_failed`, those whose lookup failed.
pub open spec fn blobs_to_fetch(ds: Seq<DigestView>, ls: Seq<LookupView>, retry_failed: bool) -> Seq<DigestView>
    decreases ds.len(),
{
    if ds.len() == 0 || ls.len() == 0 {
        Seq::empty()
    } else {
        let rest = blobs_to_fetch(ds.drop_last(), ls.drop_last(), retry_failed);
        match ls.last() {
            LookupView::Missing => rest.push(ds.last()),
            LookupView::Failed => if retry_failed { rest.push(ds.last()) } else { rest },
            _ => rest,
        }
    }
}

/// Parts the blobs asked for by what the local store answered: those it
/// holds verified, with their paths, and those still to download. Before the
/// download a failed lookup drops the blob from the fetch; under the blob's
/// write lock (`retry_failed`) it is downloaded again.
pub fn partition_lookups(digests: &Vec<CacheDigest>, lookups: &Vec<BlobLookup>, retry_failed: bool) -> (r: (Vec<(CacheDigest, String)>, Vec<CacheDigest>))
    requires
        digests.len() == lookups.len(),
    ensures
        r.0@.map_values(|e: (CacheDigest, String)| (e.0@, e.1@)) == found_blobs(digest_views(digests@), lookup_views(lookups@)),
        digest_views(r.1@) == blobs_to_fetch(digest_views(digests@), lookup_views(lookups@), retry_failed),
{
    let ghost ds = digest_views(digests@);
    let ghost ls = lookup_views(lookups@);
    let mut found: Vec<(CacheDigest, String)> = Vec::new();
    let mut fetch: Vec<CacheDigest> = Vec::new();
    let mut i: usize = 0;
    while i < digests.len()
        invariant
            i <= digests.len(),
            digests.len() == lookups.len(),
            ds == digest_views(digests@),
            ls == lookup_views(lookups@),
            found@.map_values(|e: (CacheDigest, String)| (e.0@, e.1@)) == found_blobs(ds.take(i as int), ls.take(i as int)),
            digest_views(fetch@) == blobs_to_fetch(ds.take(i as int), ls.take(i as int), retry_failed),
        decreases digests.len() - i,
    {
        assert(ds.take(i + 1).drop_last() == ds.take(i as int));
        assert(ls.take(i + 1).drop_last() == ls.take(i as int));
        assert(ds.take(i + 1).last() == digests@[i as int]@);
        assert(ls.take(i + 1).last() == lookups@[i as int]@);
        let ghost found_before = found@;
        let ghost fetch_before = fetch@;
        match &lookups[i] {
            BlobLookup::Verified(path) => {
                found.push((digests[i].clone(), path.clone()));
                assert(found@.map_values(|e: (CacheDigest, String)| (e.0@, e.1@))
                    == found_before.map_values(|e: (CacheDigest, String)| (e.0@, e.1@)).push((digests@[i as int]@, path@)));
                assert(fetch@ == fetch_before);
            },
            BlobLookup::Missing => {
                fetch.push(digests[i].clone());
                assert(digest_views(fetch@) == digest_views(fetch_before).push(digests@[i as int]@));
                assert(found@ == found_before);
            },
            BlobLookup::Failed => {
                if retry_failed {
                    fetch.push(digests[i].clone());
                    assert(digest_views(fetch@) == digest_views(fetch_before).push(digests@[i as int]@));
                }
                assert(found@ == found_before);
            },
        }
        i = i + 1;
    }
    assert(ds.take(digests.len() as int) == ds);
    assert(ls.take(digests.len() as int) == ls);
    (found, fetch)
}

/// The total length of the blobs.
pub open spec fn total_size(ds: Seq<DigestView>) -> int
    decreases ds.len(),
{
    if ds.len() == 0 {
        0
    } else {
        total_size(ds.drop_last()) + ds.last().size
    }
}

/// The bytes a blob pack of these blobs asks the budget for: their total
/// length, but no more than one pack stages.
pub open spec fn pack_request(ds: Seq<DigestView>) -> u64 {
    if total_size(ds) < MAX_STAGED_BLOB_PACK_BYTES {
        total_size(ds) as u64
    } else {
        MAX_STAGED_BLOB_PACK_BYTES
    }
}

proof fn lemma_total_size_nonnegative(ds: Seq<DigestView>)
    ensures
        total_size(ds) >= 0,
    decreases ds.len(),
{
    if ds.len() > 0 {
        lemma_total_size_nonnegative(ds.drop_last());
    }
}

/// The bytes a blob pack of `requested` asks the download budget for.
pub fn pack_request_bytes(requested: &Vec<CacheDigest>) -> (r: u64)
    ensures
        r == pack_request(digest_views(requested@)),
{
    let ghost ds = digest_views(requested@);
    let mut total: u64 = 0;
    let mut i: usize = 0;
    while i < requested.len()
        invariant
            i <= requested.len(),
            ds == digest_views(requested@),
            total as int == (if total_size(ds.take(i as int)) < u64::MAX { total_size(ds.take(i as int)) } else { u64::MAX as int }),
        decreases requested.len() - i,
    {
        assert(ds.take(i + 1).drop_last() == ds.take(i as int));
        assert(ds.take(i + 1).last() == requested@[i as int]@);
        proof {
            lemma_total_size_nonnegative(ds.take(i as int));
        }
        total = total.saturating_add(requested[i].size);
        i = i + 1;
    }
    assert(ds.take(requested.len() as int) == ds);
    if total < MAX_STAGED_BLOB_PACK_BYTES { total } else { MAX_STAGED_BLOB_PACK_BYTES }
}

/// Set aside budget for a blob pack of `requested`: as much of its request
/// as is left. Where nothing is left, nothing is reserved and the pack is
/// not fetched (`None`).
pub fn reserve_pack(budget: &mut DownloadBudget, requested: &Vec<CacheDigest>) -> (r: Option<DownloadReservation>)
    requires
        old(budget).wf(),
    ensures
        final(budget).wf(),
        final(budget).spec_limit() == old(budget).spec_limit(),
        ({
            let want = pack_request(digest_views(requested@));
            let left = old(budget).spec_limit() - old(budget).spec_used();
            let grant = if want <= left { want as int } else { left };
            &&& (r is None <==> grant == 0)
            &&& (r matches Some(x) ==> x.spec_bytes() == grant)
            &&& final(budget).spec_used() == old(budget).spec_used() + grant
        }),
{
    let bytes = pack_request_bytes(requested);
    let reservation = budget.reserve_up_to(bytes);
    if reservation.bytes() == 0 {
        None
    } else {
        Some(reservation)
    }
}

} // verus!
