//! The decisions of collecting a compilation's inputs after it ran.
//!
//! Collecting alternates between the filesystem and these rules: the working
//! directory and the input count are admitted first, then what a stat of
//! each read file found, then which files a recorded digest may stand in for
//! (the rest are scanned for timestamp macros and hashed), which fresh
//! digests are worth recording, and finally the inputs are assembled with
//! the name manifests of the searched directories.
use vstd::prelude::*;
use crate::agent::digest::CacheDigest;
use crate::agent::file_digest::{FileIdentity, RecordedFileDigest};
use crate::cc::discovery::{CcActionInput, CcDiscoveredInputs, MAX_PREDICTED_INPUTS, INCLUDE_MANIFEST_PREFIX, manifest_prefix};
use crate::cc::reason::{CcBypassReason, BypassView};
use crate::path::{is_absolute, normalized, normalize_chars};
use crate::text::{chars_of, string_of, lit_then};

verus! {

/// Most bytes the files of one compilation may hold together.
pub const MAX_INPUT_BYTES: u64 = 2147483648;

/// Admit a collection under `working_dir` of `file_count` read files and
/// `directory_count` manifest directories (those
/// [`crate::cc::manifest_dirs::minimal_manifest_directories`] kept): the
/// working directory must be absolute and the inputs few enough. Gives the
/// normalized working directory.
pub fn admit_collection(working_dir: &str, file_count: usize, directory_count: usize) -> (r: Result<String, CcBypassReason>)
    ensures
        !is_absolute(working_dir@) ==> (r matches Err(e) && e@ == BypassView::RelativeWorkingDirectory(working_dir@)),
        is_absolute(working_dir@) && file_count + directory_count > MAX_PREDICTED_INPUTS
            ==> (r matches Err(e) && e@ == BypassView::TooManyInputs),
        is_absolute(working_dir@) && file_count + directory_count <= MAX_PREDICTED_INPUTS
            ==> (r matches Ok(n) && n@ == normalized(working_dir@)),
{
    let chars = chars_of(working_dir);
    if !(chars.len() > 0 && chars[0] == '/') {
        return Err(CcBypassReason::RelativeWorkingDirectory(String::from_str(working_dir)));
    }
    if file_count > MAX_PREDICTED_INPUTS || directory_count > MAX_PREDICTED_INPUTS - file_count {
        return Err(CcBypassReason::TooManyInputs);
    }
    let n = normalize_chars(&chars);
    Ok(string_of(&n))
}

/// What a stat of one read file found: its length and whether it is a
/// regular file, or why it could not be read.
pub type FileStat = Result<(u64, bool), String>;

/// The refusal the stats of `files[from..]` earn, `total` bytes already
/// counted: the first unreadable file or non-file, or the first file that
/// takes the total past [`MAX_INPUT_BYTES`].
pub open spec fn stat_refusal(files: Seq<(String, FileStat)>, from: int, total: int) -> Option<BypassView>
    decreases files.len() - from,
{
    if from < 0 || from >= files.len() {
        None
    } else {
        match files[from].1 {
            Err(message) => Some(BypassView::InputRead { path: files[from].0@, message: message@ }),
            Ok((len, is_file)) => if !is_file {
                Some(BypassView::InputRead { path: files[from].0@, message: "input is not a regular file"@ })
            } else if total + len > MAX_INPUT_BYTES {
                Some(BypassView::TooManyInputs)
            } else {
                stat_refusal(files, from + 1, total + len)
            },
        }
    }
}

/// Judge what a stat of each read file found, in order.
pub fn admit_file_stats(files: &Vec<(String, FileStat)>) -> (r: Result<(), CcBypassReason>)
    ensures
        match stat_refusal(files@, 0, 0) {
            None => r is Ok,
            Some(e) => r matches Err(x) && x@ == e,
        },
{
    let mut total: u64 = 0;
    let mut i: usize = 0;
    while i < files.len()
        invariant
            i <= files.len(),
            total <= MAX_INPUT_BYTES,
            stat_refusal(files@, 0, 0) == stat_refusal(files@, i as int, total as int),
        decreases files.len() - i,
    {
        match &files[i].1 {
            Err(message) => {
                return Err(CcBypassReason::InputRead { path: files[i].0.clone(), message: message.clone() });
            },
            Ok((len, is_file)) => {
                if !*is_file {
                    let message = String::from_str("input is not a regular file");
                    return Err(CcBypassReason::InputRead { path: files[i].0.clone(), message });
                }
                let sum = total.saturating_add(*len);
                if sum > MAX_INPUT_BYTES {
                    return Err(CcBypassReason::TooManyInputs);
                }
                total = sum;
            },
        }
        i = i + 1;
    }
    Ok(())
}

/// The identities among `identities`, in order: what one batched digest
/// lookup asks for.
pub open spec fn queries(identities: Seq<Option<FileIdentity>>) -> Seq<FileIdentity>
    decreases identities.len(),
{
    if identities.len() == 0 {
        Seq::empty()
    } else {
        let rest = queries(identities.drop_last());
        match identities.last() {
            Some(x) => rest.push(x),
            None => rest,
        }
    }
}

/// The identities a digest lookup for these files asks for, see [`queries`].
pub fn ledger_queries(identities: &Vec<Option<FileIdentity>>) -> (r: Vec<FileIdentity>)
    ensures
        r@ == queries(identities@),
{
    let mut out: Vec<FileIdentity> = Vec::new();
    let mut i: usize = 0;
    while i < identities.len()
        invariant
            i <= identities.len(),
            out@ == queries(identities@.take(i as int)),
        decreases identities.len() - i,
    {
        assert(identities@.take(i + 1).drop_last() == identities@.take(i as int));
        assert(identities@.take(i + 1).last() == identities@[i as int]);
        match &identities[i] {
            Some(x) => out.push(x.clone()),
            None => {},
        }
        i = i + 1;
    }
    assert(identities@.take(identities.len() as int) == identities@);
    out
}

/// What a lookup answered for the file with this identity, `k` identities
/// having come before it: the recorded digest, where the file has an
/// identity, the lookup found one, and its length agrees with the file's.
pub open spec fn remembered(identity: Option<FileIdentity>, found: Seq<Option<CacheDigest>>, k: int) -> Option<CacheDigest> {
    match identity {
        None => None,
        Some(x) => if 0 <= k < found.len() && found[k] is Some && x.len == found[k].unwrap().size {
            found[k]
        } else {
            None
        },
    }
}

/// Pair each file with what the lookup of [`ledger_queries`] found for it:
/// `found` answers the queries in order, and a recorded digest stands in for
/// rereading a file only where its length agrees with the file's.
pub fn remembered_digests(identities: &Vec<Option<FileIdentity>>, found: &Vec<Option<CacheDigest>>) -> (r: Vec<Option<CacheDigest>>)
    ensures
        r.len() == identities.len(),
        forall|i: int| 0 <= i < r.len()
            ==> #[trigger] r@[i] == remembered(identities@[i], found@, queries(identities@.take(i)).len() as int),
{
    let mut out: Vec<Option<CacheDigest>> = Vec::new();
    let mut k: usize = 0;
    let mut i: usize = 0;
    while i < identities.len()
        invariant
            i <= identities.len(),
            k == queries(identities@.take(i as int)).len(),
            k <= i,
            out.len() == i,
            forall|j: int| 0 <= j < i
                ==> #[trigger] out@[j] == remembered(identities@[j], found@, queries(identities@.take(j)).len() as int),
        decreases identities.len() - i,
    {
        assert(identities@.take(i + 1).drop_last() == identities@.take(i as int));
        assert(identities@.take(i + 1).last() == identities@[i as int]);
        let answer = match &identities[i] {
            None => None,
            Some(x) => {
                if k < found.len() {
                    match &found[k] {
                        Some(d) => if x.len == d.size { Some(d.clone()) } else { None },
                        None => None,
                    }
                } else {
                    None
                }
            },
        };
        out.push(answer);
        if identities[i].is_some() {
            k = k + 1;
        }
        i = i + 1;
    }
    out
}

/// The digests worth recording after the hashing: each file that no
/// recorded digest stood in for, that has an identity, and whose digest's
/// length agrees with that identity's.
pub open spec fn fresh(identities: Seq<Option<FileIdentity>>, remembered: Seq<Option<CacheDigest>>, digests: Seq<CacheDigest>) -> Seq<RecordedFileDigest>
    decreases identities.len(),
{
    if identities.len() == 0 {
        Seq::empty()
    } else {
        let n = identities.len() - 1;
        let rest = fresh(identities.drop_last(), remembered.take(n), digests.take(n));
        match identities.last() {
            Some(x) => if remembered[n] is None && x.len == digests[n].size {
                rest.push(RecordedFileDigest { file: x, digest: digests[n] })
            } else {
                rest
            },
            None => rest,
        }
    }
}

/// The fresh digests to record, see [`fresh`]; `digests` holds each file's
/// digest, remembered or taken now.
pub fn fresh_records(identities: &Vec<Option<FileIdentity>>, remembered: &Vec<Option<CacheDigest>>, digests: &Vec<CacheDigest>) -> (r: Vec<RecordedFileDigest>)
    requires
        remembered.len() == identities.len(),
        digests.len() == identities.len(),
    ensures
        r@ == fresh(identities@, remembered@, digests@),
{
    let mut out: Vec<RecordedFileDigest> = Vec::new();
    let mut i: usize = 0;
    while i < identities.len()
        invariant
            i <= identities.len(),
            remembered.len() == identities.len(),
            digests.len() == identities.len(),
            out@ == fresh(identities@.take(i as int), remembered@.take(i as int), digests@.take(i as int)),
        decreases identities.len() - i,
    {
        let ghost ids = identities@.take(i + 1);
        assert(ids.drop_last() == identities@.take(i as int));
        assert(ids.last() == identities@[i as int]);
        assert(remembered@.take(i + 1).take(i as int) == remembered@.take(i as int));
        assert(digests@.take(i + 1).take(i as int) == digests@.take(i as int));
        assert(remembered@.take(i + 1)[i as int] == remembered@[i as int]);
        assert(digests@.take(i + 1)[i as int] == digests@[i as int]);
        match &identities[i] {
            Some(x) => {
                if remembered[i].is_none() && x.len == digests[i].size {
                    out.push(RecordedFileDigest { file: x.clone(), digest: digests[i].clone() });
                }
            },
            None => {},
        }
        i = i + 1;
    }
    assert(identities@.take(identities.len() as int) == identities@);
    assert(remembered@.take(identities.len() as int) == remembered@);
    assert(digests@.take(identities.len() as int) == digests@);
    out
}

impl CcDiscoveredInputs {
    /// The discovered inputs under the normalized `working_dir`: the read
    /// files, then an entry for each searched directory's name manifest,
    /// named by the manifest marker and the directory.
    /// `identities` holds, for each read file, the identity its digest was
    /// recorded against, where the digest came from such a record.
    pub fn assemble(working_dir: String, files: Vec<CcActionInput>, identities: Vec<Option<FileIdentity>>, manifests: &Vec<(String, CacheDigest)>) -> (r: Self)
        ensures
            r.spec_working_dir() == working_dir@,
            r.spec_identities() == identities@,
            r.spec_inputs().len() == files.len() + manifests.len(),
            forall|i: int| 0 <= i < files.len() ==> #[trigger] r.spec_inputs()[i] == files@[i],
            forall|j: int| 0 <= j < manifests.len() ==> {
                &&& (#[trigger] r.spec_inputs()[files.len() + j]).path@ == manifest_prefix() + manifests@[j].0@
                &&& r.spec_inputs()[files.len() + j].digest == manifests@[j].1
            },
    {
        let mut inputs = files;
        let ghost start = inputs@;
        let mut j: usize = 0;
        while j < manifests.len()
            invariant
                j <= manifests.len(),
                inputs.len() == start.len() + j,
                forall|i: int| 0 <= i < start.len() ==> #[trigger] inputs@[i] == start[i],
                forall|m: int| 0 <= m < j ==> {
                    &&& (#[trigger] inputs@[start.len() + m]).path@ == manifest_prefix() + manifests@[m].0@
                    &&& inputs@[start.len() + m].digest == manifests@[m].1
                },
            decreases manifests.len() - j,
        {
            let directory = chars_of(manifests[j].0.as_str());
            let path = lit_then(INCLUDE_MANIFEST_PREFIX, &directory);
            proof {
                reveal_strlit("@include-manifest:");
            }
            inputs.push(CcActionInput { path, digest: manifests[j].1.clone() });
            j = j + 1;
        }
        CcDiscoveredInputs::with_identities(working_dir, inputs, identities)
    }
}

} // verus!
