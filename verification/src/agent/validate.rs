//! Whether a prefetched action result can be restored from what the session
//! already verified: its descriptor, its metadata and, walking its output
//! tree, every directory and file it names.
use vstd::prelude::*;
use crate::agent::digest::{CacheDigest, DigestView, digests, same_digest, contains_digest};
use crate::text::{chars_of, eq_lit};

verus! {

/// Most directory objects one prefetched output tree may hold.
pub const MAX_PREFETCH_DIRECTORY_OBJECTS: usize = 100000;

/// One directory of an output tree: the digests of its files and of its
/// subdirectories.
#[derive(Debug, Clone)]
pub struct DirectoryListing {
    /// Digests of the files directly in the directory.
    pub files: Vec<CacheDigest>,
    /// Digests of the directory objects of its subdirectories.
    pub directories: Vec<CacheDigest>,
}

/// A listing as plain values.
pub type ListingView = (Seq<DigestView>, Seq<DigestView>);

/// Directory objects keyed by digest, as plain values.
pub open spec fn listings(dirs: Seq<(CacheDigest, DirectoryListing)>) -> Seq<(DigestView, ListingView)> {
    dirs.map_values(|e: (CacheDigest, DirectoryListing)| (e.0@, (digests(e.1.files@), digests(e.1.directories@))))
}

/// The listing recorded for `d`: the first entry with that digest.
pub open spec fn listing_of(dirs: Seq<(DigestView, ListingView)>, d: DigestView) -> Option<ListingView>
    decreases dirs.len(),
{
    if dirs.len() == 0 {
        None
    } else if dirs[0].0 == d {
        Some(dirs[0].1)
    } else {
        listing_of(dirs.drop_first(), d)
    }
}

/// Why a prefetched action cannot be restored.
#[derive(Debug, Clone, Copy, PartialEq, Eq, Structural)]
pub enum PrefetchError {
    /// The action descriptor blob was not verified.
    DescriptorMissing,
    /// The rustc metadata record was not found.
    RustcMetadataMissing,
    /// A rustc diagnostic blob was not verified.
    DiagnosticMissing,
    /// The metadata blob was not verified.
    MetadataMissing,
    /// The output tree holds more than [`MAX_PREFETCH_DIRECTORY_OBJECTS`] directories.
    TreeTooLarge,
    /// An output directory object was not found.
    DirectoryMissing,
    /// An output file blob was not verified.
    FileMissing,
}

/// The sentence that explains a prefetch refusal.
pub open spec fn prefetch_error_message(e: PrefetchError) -> Seq<char> {
    match e {
        PrefetchError::DescriptorMissing => "remote action descriptor is missing"@,
        PrefetchError::RustcMetadataMissing => "remote rustc action metadata is missing"@,
        PrefetchError::DiagnosticMissing => "remote rustc action diagnostic blob is missing"@,
        PrefetchError::MetadataMissing => "remote action metadata is missing"@,
        PrefetchError::TreeTooLarge => "remote action output tree is too large"@,
        PrefetchError::DirectoryMissing => "remote action output directory is missing"@,
        PrefetchError::FileMissing => "remote action output file is missing"@,
    }
}

impl PrefetchError {
    /// The refusal as a sentence.
    pub fn message(&self) -> (r: String)
        ensures
            r@ == prefetch_error_message(*self),
    {
        proof {
            reveal_strlit("remote action descriptor is missing");
            reveal_strlit("remote rustc action metadata is missing");
            reveal_strlit("remote rustc action diagnostic blob is missing");
            reveal_strlit("remote action metadata is missing");
            reveal_strlit("remote action output tree is too large");
            reveal_strlit("remote action output directory is missing");
            reveal_strlit("remote action output file is missing");
        }
        match self {
            PrefetchError::DescriptorMissing => String::from_str("remote action descriptor is missing"),
            PrefetchError::RustcMetadataMissing => String::from_str("remote rustc action metadata is missing"),
            PrefetchError::DiagnosticMissing => String::from_str("remote rustc action diagnostic blob is missing"),
            PrefetchError::MetadataMissing => String::from_str("remote action metadata is missing"),
            PrefetchError::TreeTooLarge => String::from_str("remote action output tree is too large"),
            PrefetchError::DirectoryMissing => String::from_str("remote action output directory is missing"),
            PrefetchError::FileMissing => String::from_str("remote action output file is missing"),
        }
    }
}

/// The walk of an output tree from the directories still `pending` (the
/// last taken first), `seen` holding those already walked: a directory seen
/// before is skipped; a new one counts against the limit, must be listed, and
/// must have all its files verified, and its subdirectories join the pending
/// ones.
pub open spec fn walk(pending: Seq<DigestView>, seen: Seq<DigestView>, dirs: Seq<(DigestView, ListingView)>, verified: Seq<DigestView>) -> Option<PrefetchError>
    decreases MAX_PREFETCH_DIRECTORY_OBJECTS - seen.len(), pending.len(),
{
    if pending.len() == 0 {
        None
    } else {
        let d = pending.last();
        let rest = pending.drop_last();
        if seen.contains(d) {
            walk(rest, seen, dirs, verified)
        } else if seen.len() + 1 > MAX_PREFETCH_DIRECTORY_OBJECTS {
            Some(PrefetchError::TreeTooLarge)
        } else {
            match listing_of(dirs, d) {
                None => Some(PrefetchError::DirectoryMissing),
                Some(listing) => if exists|i: int| 0 <= i < listing.0.len() && !verified.contains(#[trigger] listing.0[i]) {
                    Some(PrefetchError::FileMissing)
                } else {
                    walk(rest + listing.1, seen.push(d), dirs, verified)
                },
            }
        }
    }
}

/// The refusal a prefetched action earns, if any: the descriptor first,
/// then the metadata (for rustc, its record and both diagnostic blobs),
/// then the walk of the output tree from its root.
pub open spec fn prefetch_refusal(
    adapter: Seq<char>,
    action: DigestView,
    metadata: Option<DigestView>,
    output_root: Option<DigestView>,
    verified: Seq<DigestView>,
    rustc: Seq<(DigestView, (DigestView, DigestView))>,
    dirs: Seq<(DigestView, ListingView)>,
) -> Option<PrefetchError> {
    if !verified.contains(action) {
        Some(PrefetchError::DescriptorMissing)
    } else {
        let meta = match metadata {
            None => None,
            Some(m) => if adapter == "rustc"@ {
                match rustc_record(rustc, m) {
                    None => Some(PrefetchError::RustcMetadataMissing),
                    Some((stdout, stderr)) => if !verified.contains(stdout) || !verified.contains(stderr) {
                        Some(PrefetchError::DiagnosticMissing)
                    } else {
                        None
                    },
                }
            } else if !verified.contains(m) {
                Some(PrefetchError::MetadataMissing)
            } else {
                None
            },
        };
        if meta is Some {
            meta
        } else {
            match output_root {
                None => None,
                Some(root) => walk(seq![root], Seq::empty(), dirs, verified),
            }
        }
    }
}

/// The diagnostic blobs recorded for a rustc metadata digest: the first
/// record with that digest.
pub open spec fn rustc_record(rustc: Seq<(DigestView, (DigestView, DigestView))>, m: DigestView) -> Option<(DigestView, DigestView)>
    decreases rustc.len(),
{
    if rustc.len() == 0 {
        None
    } else if rustc[0].0 == m {
        Some(rustc[0].1)
    } else {
        rustc_record(rustc.drop_first(), m)
    }
}

/// Rustc metadata records as plain values.
pub open spec fn rustc_view(rustc: Seq<(CacheDigest, (CacheDigest, CacheDigest))>) -> Seq<(DigestView, (DigestView, DigestView))> {
    rustc.map_values(|e: (CacheDigest, (CacheDigest, CacheDigest))| (e.0@, (e.1.0@, e.1.1@)))
}

fn find_listing(dirs: &Vec<(CacheDigest, DirectoryListing)>, d: &CacheDigest) -> (r: Option<usize>)
    ensures
        match listing_of(listings(dirs@), d@) {
            None => r is None,
            Some(l) => r matches Some(i) && i < dirs.len() && listings(dirs@)[i as int].1 == l,
        },
{
    let ghost all = listings(dirs@);
    let mut i: usize = 0;
    assert(all.skip(0) == all);
    while i < dirs.len()
        invariant
            i <= dirs.len(),
            all == listings(dirs@),
            listing_of(all, d@) == listing_of(all.skip(i as int), d@),
        decreases dirs.len() - i,
    {
        assert(all.skip(i as int)[0] == all[i as int]);
        assert(all.skip(i as int).drop_first() == all.skip(i + 1));
        if same_digest(&dirs[i].0, d) {
            return Some(i);
        }
        i = i + 1;
    }
    None
}

fn find_rustc(rustc: &Vec<(CacheDigest, (CacheDigest, CacheDigest))>, m: &CacheDigest) -> (r: Option<usize>)
    ensures
        match rustc_record(rustc_view(rustc@), m@) {
            None => r is None,
            Some(x) => r matches Some(i) && i < rustc.len() && rustc_view(rustc@)[i as int].1 == x,
        },
{
    let ghost all = rustc_view(rustc@);
    let mut i: usize = 0;
    assert(all.skip(0) == all);
    while i < rustc.len()
        invariant
            i <= rustc.len(),
            all == rustc_view(rustc@),
            rustc_record(all, m@) == rustc_record(all.skip(i as int), m@),
        decreases rustc.len() - i,
    {
        assert(all.skip(i as int)[0] == all[i as int]);
        assert(all.skip(i as int).drop_first() == all.skip(i + 1));
        if same_digest(&rustc[i].0, m) {
            return Some(i);
        }
        i = i + 1;
    }
    None
}

/// Check that a prefetched action can be restored from what the session
/// verified, see [`prefetch_refusal`].
pub fn validate_prefetched_action(
    adapter: &str,
    action: &CacheDigest,
    metadata: &Option<CacheDigest>,
    output_root: &Option<CacheDigest>,
    verified: &Vec<CacheDigest>,
    rustc: &Vec<(CacheDigest, (CacheDigest, CacheDigest))>,
    dirs: &Vec<(CacheDigest, DirectoryListing)>,
) -> (r: Result<(), PrefetchError>)
    ensures
        match prefetch_refusal(adapter@, action@, match metadata { Some(m) => Some(m@), None => None },
            match output_root { Some(o) => Some(o@), None => None }, digests(verified@), rustc_view(rustc@), listings(dirs@)) {
            None => r is Ok,
            Some(e) => r == Err::<(), PrefetchError>(e),
        },
{
    let ghost vs = digests(verified@);
    let ghost ds = listings(dirs@);
    let ghost expected = prefetch_refusal(adapter@, action@, match metadata { Some(m) => Some(m@), None => None },
        match output_root { Some(o) => Some(o@), None => None }, vs, rustc_view(rustc@), ds);
    if !contains_digest(verified, action) {
        return Err(PrefetchError::DescriptorMissing);
    }
    match metadata {
        None => {},
        Some(m) => {
            let name = chars_of(adapter);
            if eq_lit(&name, "rustc") {
                match find_rustc(rustc, m) {
                    None => return Err(PrefetchError::RustcMetadataMissing),
                    Some(i) => {
                        if !contains_digest(verified, &rustc[i].1.0) || !contains_digest(verified, &rustc[i].1.1) {
                            return Err(PrefetchError::DiagnosticMissing);
                        }
                    },
                }
            } else if !contains_digest(verified, m) {
                return Err(PrefetchError::MetadataMissing);
            }
        },
    }
    let root = match output_root {
        None => return Ok(()),
        Some(root) => root,
    };
    let mut pending: Vec<CacheDigest> = Vec::new();
    pending.push(root.clone());
    let mut seen: Vec<CacheDigest> = Vec::new();
    assert(digests(pending@) =~= seq![root@]);
    assert(digests(seen@) =~= Seq::<DigestView>::empty());
    assert(expected == walk(seq![root@], Seq::empty(), ds, vs));
    while pending.len() > 0
        invariant
            expected == walk(seq![root@], Seq::empty(), ds, vs),
            expected == prefetch_refusal(adapter@, action@, match metadata { Some(m) => Some(m@), None => None },
                match output_root { Some(o) => Some(o@), None => None }, digests(verified@), rustc_view(rustc@), listings(dirs@)),
            vs == digests(verified@),
            ds == listings(dirs@),
            seen.len() <= MAX_PREFETCH_DIRECTORY_OBJECTS,
            walk(seq![root@], Seq::empty(), ds, vs) == walk(digests(pending@), digests(seen@), ds, vs),
        decreases MAX_PREFETCH_DIRECTORY_OBJECTS - seen.len(), pending.len(),
    {
        let ghost pv = digests(pending@);
        let ghost sv = digests(seen@);
        let d = pending.pop().unwrap();
        assert(digests(pending@) =~= pv.drop_last());
        assert(d@ == pv.last());
        if contains_digest(&seen, &d) {
            continue;
        }
        if seen.len() + 1 > MAX_PREFETCH_DIRECTORY_OBJECTS {
            return Err(PrefetchError::TreeTooLarge);
        }
        let at = match find_listing(dirs, &d) {
            None => return Err(PrefetchError::DirectoryMissing),
            Some(i) => i,
        };
        let ghost listing = ds[at as int].1;
        assert(digests(pending@).push(d@) =~= pv);
        let files = &dirs[at].1.files;
        assert(listing.0 == digests(files@));
        let mut k: usize = 0;
        while k < files.len()
            invariant
                k <= files.len(),
                expected == walk(digests(pending@).push(d@), digests(seen@), ds, vs),
                !digests(seen@).contains(d@),
                seen.len() + 1 <= MAX_PREFETCH_DIRECTORY_OBJECTS,
                listing_of(ds, d@) == Some(listing),
                expected == prefetch_refusal(adapter@, action@, match metadata { Some(m) => Some(m@), None => None },
                    match output_root { Some(o) => Some(o@), None => None }, digests(verified@), rustc_view(rustc@), listings(dirs@)),
                vs == digests(verified@),
                listing.0 == digests(files@),
                forall|q: int| 0 <= q < k ==> vs.contains(#[trigger] listing.0[q]),
            decreases files.len() - k,
        {
            if !contains_digest(verified, &files[k]) {
                assert(!vs.contains(listing.0[k as int]));
                return Err(PrefetchError::FileMissing);
            }
            k = k + 1;
        }
        let subdirs = &dirs[at].1.directories;
        assert(listing.1 == digests(subdirs@));
        let ghost before = digests(pending@);
        let mut c: usize = 0;
        while c < subdirs.len()
            invariant
                c <= subdirs.len(),
                listing.1 == digests(subdirs@),
                digests(pending@) == before + listing.1.take(c as int),
            decreases subdirs.len() - c,
        {
            let ghost now = digests(pending@);
            pending.push(subdirs[c].clone());
            assert(digests(pending@) =~= now.push(subdirs@[c as int]@));
            assert(listing.1.take(c + 1) =~= listing.1.take(c as int).push(listing.1[c as int]));
            c = c + 1;
        }
        assert(listing.1.take(subdirs.len() as int) =~= listing.1);
        seen.push(d);
        assert(digests(seen@) =~= sv.push(pv.last()));
    }
    Ok(())
}

} // verus!
