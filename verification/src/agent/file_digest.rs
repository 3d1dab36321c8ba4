//! File identities that let a recorded digest stand in for rereading a file,
//! and snapshots that tell whether a file changed underneath an operation.
use vstd::prelude::*;
use crate::agent::digest::{CacheDigest, DigestView, same_digest, is_valid_digest};
use crate::path::{same_path, is_absolute, components_of};
use crate::text::{chars_of, eq_chars};

verus! {

/// The on-disk identity a recorded file digest describes: the path, the
/// length, the modification time (seconds and nanoseconds since the Unix
/// epoch) and, where the platform reports one, the metadata-change token.
///
/// An overwrite moves the modification time and a truncation changes the
/// length, so a digest recorded against both stands until either does; the
/// change token is the part a writer cannot put back.
#[derive(Debug, PartialEq, Eq)]
pub struct FileIdentity {
    /// Absolute path of the file.
    pub path: String,
    /// Length of the file in bytes.
    pub len: u64,
    /// Modification time: seconds and nanoseconds since the Unix epoch.
    pub modified: (i64, u32),
    /// Platform metadata-change token, where one exists.
    pub changed: Option<(i64, i64)>,
}

impl Clone for FileIdentity {
    fn clone(&self) -> (r: Self)
        ensures
            r == *self,
    {
        FileIdentity { path: self.path.clone(), len: self.len, modified: self.modified, changed: self.changed }
    }
}

/// Whether two identities describe the same file state, paths compared
/// component by component as `Path` equality does.
pub open spec fn same_identity(a: &FileIdentity, b: &FileIdentity) -> bool {
    &&& same_path(a.path@, b.path@)
    &&& a.len == b.len
    &&& a.modified == b.modified
    &&& a.changed == b.changed
}

/// Whether two paths are equal as `Path` values.
pub fn paths_equal(a: &str, b: &str) -> (r: bool)
    ensures
        r == same_path(a@, b@),
{
    let a_chars = chars_of(a);
    let b_chars = chars_of(b);
    let a_absolute = a_chars.len() > 0 && a_chars[0] == '/';
    let b_absolute = b_chars.len() > 0 && b_chars[0] == '/';
    if a_absolute != b_absolute {
        return false;
    }
    let a_parts = components_of(&a_chars);
    let b_parts = components_of(&b_chars);
    if a_parts.len() != b_parts.len() {
        assert(crate::text::views(a_parts@).len() == a_parts.len());
        assert(crate::text::views(b_parts@).len() == b_parts.len());
        return false;
    }
    let mut i: usize = 0;
    while i < a_parts.len()
        invariant
            i <= a_parts.len(),
            a_parts.len() == b_parts.len(),
            crate::text::views(a_parts@) == crate::path::components(a@),
            crate::text::views(b_parts@) == crate::path::components(b@),
            forall|j: int| 0 <= j < i ==> a_parts@[j]@ == b_parts@[j]@,
        decreases a_parts.len() - i,
    {
        if !eq_chars(&a_parts[i], &b_parts[i]) {
            assert(crate::text::views(a_parts@)[i as int] != crate::text::views(b_parts@)[i as int]);
            assert(crate::path::components(a@) != crate::path::components(b@));
            return false;
        }
        i = i + 1;
    }
    assert(crate::text::views(a_parts@) =~= crate::text::views(b_parts@));
    true
}

impl FileIdentity {
    /// Whether `other` describes the same file state as this identity.
    pub fn same_as(&self, other: &FileIdentity) -> (r: bool)
        ensures
            r == same_identity(self, other),
    {
        self.len == other.len && self.modified.0 == other.modified.0 && self.modified.1 == other.modified.1
            && match (self.changed, other.changed) {
                (None, None) => true,
                (Some(a), Some(b)) => a.0 == b.0 && a.1 == b.1,
                _ => false,
            }
            && paths_equal(self.path.as_str(), other.path.as_str())
    }
}

/// A pre-operation snapshot that can prove whether a file's contents changed.
///
/// Most filesystems provide a stable metadata-change token, so the identity
/// is sufficient; a file whose metadata cannot be trusted carries a content
/// digest instead. Callers use the same comparison either way.
#[derive(Debug, Clone, PartialEq, Eq)]
pub struct FileSnapshot {
    identity: FileIdentity,
    content: Option<CacheDigest>,
}

impl FileSnapshot {
    /// The identity the file had when the snapshot was taken.
    pub closed spec fn spec_identity(&self) -> FileIdentity {
        self.identity
    }

    /// The content digest taken with the snapshot, for a file whose metadata
    /// cannot stand in for its contents.
    pub closed spec fn spec_content(&self) -> Option<DigestView> {
        match self.content {
            Some(d) => Some(d@),
            None => None,
        }
    }

    /// Build the snapshot from what the filesystem reported: the file's
    /// identity (none when it reports no modification time, and then there
    /// is no snapshot), and its content digest where metadata is unreliable.
    pub fn capture(identity: Option<FileIdentity>, content: Option<CacheDigest>) -> (r: Option<Self>)
        ensures
            r is Some <==> identity is Some,
            r is Some ==> r.unwrap().spec_identity() == identity.unwrap()
                && r.unwrap().spec_content() == match content {
                    Some(d) => Some(d@),
                    None => None::<DigestView>,
                },
    {
        match identity {
            Some(identity) => Some(FileSnapshot { identity, content }),
            None => None,
        }
    }

    /// Whether `identity` and `content` still describe this snapshot: by
    /// content where the snapshot holds a digest, else by identity.
    pub fn matches(&self, identity: Option<&FileIdentity>, content: &CacheDigest) -> (r: bool)
        ensures
            r == match self.spec_content() {
                Some(before) => before == content@,
                None => match identity {
                    Some(now) => same_identity(now, &self.spec_identity()),
                    None => false,
                },
            },
    {
        match &self.content {
            Some(before) => same_digest(before, content),
            None => match identity {
                Some(now) => now.same_as(&self.identity),
                None => false,
            },
        }
    }

    /// Whether a mismatch proves the file's contents changed: it does where
    /// the snapshot holds a digest or the identity carries a change token.
    pub fn proves_content_change(&self) -> (r: bool)
        ensures
            r == (self.spec_content() is Some || self.spec_identity().changed is Some),
    {
        self.content.is_some() || self.identity.changed.is_some()
    }
}

/// A file digest recorded against the identity it was read under.
#[derive(Debug, PartialEq, Eq)]
pub struct RecordedFileDigest {
    /// Identity of the file when its contents were hashed.
    pub file: FileIdentity,
    /// Digest of those contents.
    pub digest: CacheDigest,
}

impl Clone for RecordedFileDigest {
    fn clone(&self) -> (r: Self)
        ensures
            r == *self,
    {
        RecordedFileDigest { file: self.file.clone(), digest: self.digest.clone() }
    }
}

/// What a recorded file digest may stand in for.
#[derive(Debug, Clone, Copy, PartialEq, Eq, PartialOrd, Ord, Hash, Structural)]
pub enum FileDigestScope {
    /// The digest describes the file's contents and nothing more.
    Content,
    /// The digest describes a cc compiler input that also passed the
    /// timestamp-macro scan.
    CcInput,
}

/// Why a file-digest record was refused.
#[derive(Debug, Clone, Copy, PartialEq, Eq, Structural)]
pub enum FileDigestError {
    /// The record's path is relative.
    RelativePath,
    /// The record's digest is malformed.
    InvalidDigest,
    /// The record's length differs from its digest's.
    LengthMismatch,
}

/// The verdict on a file-digest record: an absolute path, a well-formed
/// digest, and the digest's length, checked in that order.
pub open spec fn record_verdict(entry: RecordedFileDigest) -> Result<(), FileDigestError> {
    if !is_absolute(entry.file.path@) {
        Err(FileDigestError::RelativePath)
    } else if !is_valid_digest(entry.digest@) {
        Err(FileDigestError::InvalidDigest)
    } else if entry.file.len != entry.digest.size {
        Err(FileDigestError::LengthMismatch)
    } else {
        Ok(())
    }
}

/// What every file-digest record must satisfy before a ledger answers with
/// it, see [`record_verdict`].
pub fn validate_file_digest_record(entry: &RecordedFileDigest) -> (r: Result<(), FileDigestError>)
    ensures
        r == record_verdict(*entry),
{
    let path = chars_of(entry.file.path.as_str());
    if !(path.len() > 0 && path[0] == '/') {
        return Err(FileDigestError::RelativePath);
    }
    if !entry.digest.validate() {
        return Err(FileDigestError::InvalidDigest);
    }
    if entry.file.len != entry.digest.size {
        return Err(FileDigestError::LengthMismatch);
    }
    Ok(())
}

/// Recorded digests a session may consult instead of rehashing a file.
pub trait FileDigestCache {
    /// Recorded digests for these identities, in request order.
    fn find(&self, scope: FileDigestScope, files: &[FileIdentity]) -> Vec<Option<CacheDigest>>;

    /// Record digests for files read under these identities.
    fn record(&self, scope: FileDigestScope, entries: Vec<RecordedFileDigest>);
}

/// A [`FileDigestCache`] that remembers nothing and finds nothing.
pub struct NoFileDigestCache;

impl FileDigestCache for NoFileDigestCache {
    fn find(&self, scope: FileDigestScope, files: &[FileIdentity]) -> (r: Vec<Option<CacheDigest>>)
        ensures
            r@.len() == files@.len(),
            forall|i: int| 0 <= i < r@.len() ==> r@[i] is None,
    {
        let mut found: Vec<Option<CacheDigest>> = Vec::new();
        let mut i: usize = 0;
        while i < files.len()
            invariant
                i <= files.len(),
                found@.len() == i,
                forall|j: int| 0 <= j < found@.len() ==> found@[j] is None,
            decreases files.len() - i,
        {
            found.push(None);
            i = i + 1;
        }
        found
    }

    fn record(&self, scope: FileDigestScope, entries: Vec<RecordedFileDigest>) {
    }
}

} // verus!

verus! {

/// Most file identities one digest lookup or record may carry.
pub const MAX_FILE_DIGEST_BATCH: usize = 16384;

/// Most recorded file digests one session retains across every scope.
pub const MAX_FILE_DIGEST_ENTRIES: usize = 1048576;

/// Why a ledger request was refused.
#[derive(Debug, Clone, Copy, PartialEq, Eq, Structural)]
pub enum LedgerError {
    /// More identities than one request may carry.
    TooManyFiles,
    /// A record failed validation.
    InvalidRecord(FileDigestError),
}

/// Whether two ledger slots are the same: one scope, one path.
pub open spec fn same_slot(a: (FileDigestScope, RecordedFileDigest), scope: FileDigestScope, path: Seq<char>) -> bool {
    a.0 == scope && same_path(a.1.file.path@, path)
}

/// The record a ledger holds for a scope and path, if any.
pub open spec fn slot_record(entries: Seq<(FileDigestScope, RecordedFileDigest)>, scope: FileDigestScope, path: Seq<char>) -> Option<RecordedFileDigest> {
    if exists|i: int| 0 <= i < entries.len() && same_slot(#[trigger] entries[i], scope, path) {
        Some(entries[choose|i: int| 0 <= i < entries.len() && same_slot(#[trigger] entries[i], scope, path)].1)
    } else {
        None
    }
}

/// The answer a ledger gives for one identity: the recorded digest, only
/// when the identity matches the recorded one exactly.
pub open spec fn ledger_answer(entries: Seq<(FileDigestScope, RecordedFileDigest)>, scope: FileDigestScope, file: FileIdentity) -> Option<DigestView> {
    match slot_record(entries, scope, file.path@) {
        Some(record) => if same_identity(&record.file, &file) { Some(record.digest@) } else { None },
        None => None,
    }
}

/// The record a slot holds after `es` were recorded in order under
/// `scope` over `entries`: the last of them for that path, else what it held.
pub open spec fn slot_after_record(entries: Seq<(FileDigestScope, RecordedFileDigest)>, scope: FileDigestScope, es: Seq<RecordedFileDigest>, s: FileDigestScope, p: Seq<char>) -> Option<RecordedFileDigest>
    decreases es.len(),
{
    if es.len() == 0 {
        slot_record(entries, s, p)
    } else if s == scope && same_path(es.last().file.path@, p) {
        Some(es.last())
    } else {
        slot_after_record(entries, scope, es.drop_last(), s, p)
    }
}

/// The record a slot holds after seeding from `es` over `entries`: what it
/// held, else the first valid seed for it.
pub open spec fn slot_after_seed(entries: Seq<(FileDigestScope, RecordedFileDigest)>, es: Seq<(FileDigestScope, RecordedFileDigest)>, s: FileDigestScope, p: Seq<char>) -> Option<RecordedFileDigest>
    decreases es.len(),
{
    if es.len() == 0 {
        slot_record(entries, s, p)
    } else {
        let before = slot_after_seed(entries, es.drop_last(), s, p);
        if before is Some {
            before
        } else if same_slot(es.last(), s, p) && record_verdict(es.last().1) is Ok {
            Some(es.last().1)
        } else {
            None
        }
    }
}

/// How many of `es` seeding takes over `entries`: each valid one whose
/// slot is still empty when it comes.
pub open spec fn seeds_taken(entries: Seq<(FileDigestScope, RecordedFileDigest)>, es: Seq<(FileDigestScope, RecordedFileDigest)>) -> nat
    decreases es.len(),
{
    if es.len() == 0 {
        0
    } else {
        let last = es.last();
        seeds_taken(entries, es.drop_last()) + if record_verdict(last.1) is Ok
            && slot_after_seed(entries, es.drop_last(), last.0, last.1.file.path@) is None { 1nat } else { 0nat }
    }
}

/// Whether no two records share a scope and path.
pub open spec fn slots_unique(es: Seq<(FileDigestScope, RecordedFileDigest)>) -> bool {
    forall|i: int, j: int| 0 <= i < j < es.len()
        ==> !same_slot(#[trigger] es[i], (#[trigger] es[j]).0, es[j].1.file.path@)
}

proof fn lemma_unique_slot(es: Seq<(FileDigestScope, RecordedFileDigest)>, s: FileDigestScope, p: Seq<char>, c1: int, c2: int)
    requires
        slots_unique(es),
        0 <= c1 < es.len(),
        0 <= c2 < es.len(),
        same_slot(es[c1], s, p),
        same_slot(es[c2], s, p),
    ensures
        c1 == c2,
{
    if c1 < c2 {
        assert(!same_slot(es[c1], es[c2].0, es[c2].1.file.path@));
    } else if c2 < c1 {
        assert(!same_slot(es[c2], es[c1].0, es[c1].1.file.path@));
    }
}

proof fn lemma_slot_at(es: Seq<(FileDigestScope, RecordedFileDigest)>, s: FileDigestScope, p: Seq<char>, c: int)
    requires
        slots_unique(es),
        0 <= c < es.len(),
        same_slot(es[c], s, p),
    ensures
        slot_record(es, s, p) == Some(es[c].1),
{
    let k = choose|i: int| 0 <= i < es.len() && same_slot(#[trigger] es[i], s, p);
    lemma_unique_slot(es, s, p, c, k);
}

proof fn lemma_slot_same_path(es: Seq<(FileDigestScope, RecordedFileDigest)>, s: FileDigestScope, a: Seq<char>, p: Seq<char>)
    requires
        slots_unique(es),
        same_path(a, p),
    ensures
        slot_record(es, s, a) == slot_record(es, s, p),
{
    if exists|i: int| 0 <= i < es.len() && same_slot(#[trigger] es[i], s, a) {
        let c = choose|i: int| 0 <= i < es.len() && same_slot(#[trigger] es[i], s, a);
        lemma_slot_at(es, s, a, c);
        lemma_slot_at(es, s, p, c);
    } else if exists|i: int| 0 <= i < es.len() && same_slot(#[trigger] es[i], s, p) {
        let c = choose|i: int| 0 <= i < es.len() && same_slot(#[trigger] es[i], s, p);
        assert(same_slot(es[c], s, a));
    }
}

proof fn lemma_slots_after_push(before: Seq<(FileDigestScope, RecordedFileDigest)>, scope: FileDigestScope, entry: RecordedFileDigest)
    requires
        slots_unique(before),
        slot_record(before, scope, entry.file.path@) is None,
    ensures
        slots_unique(before.push((scope, entry))),
        forall|s: FileDigestScope, p: Seq<char>| #[trigger] slot_record(before.push((scope, entry)), s, p)
            == if s == scope && same_path(entry.file.path@, p) { Some(entry) } else { slot_record(before, s, p) },
{
    let after = before.push((scope, entry));
    let n = before.len() as int;
    assert forall|i: int| 0 <= i < n implies !same_slot(#[trigger] before[i], scope, entry.file.path@) by {
    }
    assert forall|i: int, j: int| 0 <= i < j < after.len() implies !same_slot(#[trigger] after[i], (#[trigger] after[j]).0, after[j].1.file.path@) by {
        if j < n {
            assert(after[i] == before[i]);
            assert(after[j] == before[j]);
        } else {
            assert(after[i] == before[i]);
        }
    }
    assert forall|s: FileDigestScope, p: Seq<char>| #[trigger] slot_record(after, s, p)
        == if s == scope && same_path(entry.file.path@, p) { Some(entry) } else { slot_record(before, s, p) } by {
        if s == scope && same_path(entry.file.path@, p) {
            assert(same_slot(after[n], s, p));
            lemma_slot_at(after, s, p, n);
        } else {
            if exists|i: int| 0 <= i < before.len() && same_slot(#[trigger] before[i], s, p) {
                let c = choose|i: int| 0 <= i < before.len() && same_slot(#[trigger] before[i], s, p);
                lemma_slot_at(before, s, p, c);
                assert(after[c] == before[c]);
                lemma_slot_at(after, s, p, c);
            } else {
                assert forall|i: int| 0 <= i < after.len() implies !same_slot(#[trigger] after[i], s, p) by {
                    if i < n {
                        assert(after[i] == before[i]);
                    }
                }
            }
        }
    }
}

proof fn lemma_slots_after_set(before: Seq<(FileDigestScope, RecordedFileDigest)>, k: int, scope: FileDigestScope, entry: RecordedFileDigest)
    requires
        slots_unique(before),
        0 <= k < before.len(),
        same_slot(before[k], scope, entry.file.path@),
    ensures
        slots_unique(before.update(k, (scope, entry))),
        forall|s: FileDigestScope, p: Seq<char>| #[trigger] slot_record(before.update(k, (scope, entry)), s, p)
            == if s == scope && same_path(entry.file.path@, p) { Some(entry) } else { slot_record(before, s, p) },
{
    let after = before.update(k, (scope, entry));
    assert forall|i: int, j: int| 0 <= i < j < after.len() implies !same_slot(#[trigger] after[i], (#[trigger] after[j]).0, after[j].1.file.path@) by {
        if i == k {
            assert(!same_slot(before[i], before[j].0, before[j].1.file.path@));
        } else if j == k {
            assert(!same_slot(before[i], before[j].0, before[j].1.file.path@));
        }
    }
    assert forall|s: FileDigestScope, p: Seq<char>| #[trigger] slot_record(after, s, p)
        == if s == scope && same_path(entry.file.path@, p) { Some(entry) } else { slot_record(before, s, p) } by {
        if s == scope && same_path(entry.file.path@, p) {
            assert(same_slot(after[k], s, p));
            lemma_slot_at(after, s, p, k);
        } else {
            assert(!same_slot(before[k], s, p));
            if exists|i: int| 0 <= i < before.len() && same_slot(#[trigger] before[i], s, p) {
                let c = choose|i: int| 0 <= i < before.len() && same_slot(#[trigger] before[i], s, p);
                lemma_slot_at(before, s, p, c);
                assert(c != k);
                assert(after[c] == before[c]);
                lemma_slot_at(after, s, p, c);
            } else {
                assert forall|i: int| 0 <= i < after.len() implies !same_slot(#[trigger] after[i], s, p) by {
                    if i != k {
                        assert(after[i] == before[i]);
                    }
                }
            }
        }
    }
}

/// Digests of files shims hashed or wrote this session, one per scope and
/// path, each standing while its recorded identity matches the disk.
pub struct FileDigestLedger {
    entries: Vec<(FileDigestScope, RecordedFileDigest)>,
}

/// The most records a ledger of `n` records may hold after a record or a
/// seed: the size limit, or `n` where it was already past it.
pub open spec fn capped_len(n: nat) -> nat {
    if n > MAX_FILE_DIGEST_ENTRIES { n } else { MAX_FILE_DIGEST_ENTRIES as nat }
}

impl FileDigestLedger {
    /// The ledger's records.
    pub closed spec fn records(&self) -> Seq<(FileDigestScope, RecordedFileDigest)> {
        self.entries@
    }

    /// No two records share a scope and path.
    pub closed spec fn wf(&self) -> bool {
        slots_unique(self.entries@)
    }

    /// An empty ledger.
    pub fn new() -> (r: Self)
        ensures
            r.wf(),
            r.records().len() == 0,
    {
        FileDigestLedger { entries: Vec::new() }
    }

    /// How many records the ledger holds.
    pub fn len(&self) -> (r: usize)
        ensures
            r == self.records().len(),
    {
        self.entries.len()
    }

    fn slot_of(&self, scope: FileDigestScope, path: &str) -> (r: Option<usize>)
        requires
            self.wf(),
        ensures
            match r {
                Some(i) => i < self.entries@.len() && same_slot(self.entries@[i as int], scope, path@)
                    && slot_record(self.entries@, scope, path@) == Some(self.entries@[i as int].1),
                None => slot_record(self.entries@, scope, path@) is None,
            },
    {
        let mut i: usize = 0;
        while i < self.entries.len()
            invariant
                i <= self.entries.len(),
                self.wf(),
                forall|k: int| 0 <= k < i ==> !same_slot(#[trigger] self.entries@[k], scope, path@),
            decreases self.entries.len() - i,
        {
            if self.entries[i].0 == scope && paths_equal(self.entries[i].1.file.path.as_str(), path) {
                proof {
                    lemma_slot_at(self.entries@, scope, path@, i as int);
                }
                return Some(i);
            }
            i = i + 1;
        }
        None
    }

    /// Recorded digests for these identities, in request order, each only
    /// where the identity matches the recorded one exactly.
    pub fn find(&self, scope: FileDigestScope, files: &Vec<FileIdentity>) -> (r: Result<Vec<Option<CacheDigest>>, LedgerError>)
        requires
            self.wf(),
        ensures
            files.len() > MAX_FILE_DIGEST_BATCH ==> r == Err::<Vec<Option<CacheDigest>>, LedgerError>(LedgerError::TooManyFiles),
            files.len() <= MAX_FILE_DIGEST_BATCH ==> (r matches Ok(found) && found.len() == files.len()
                && forall|i: int| 0 <= i < files.len() ==> match (#[trigger] found@[i], ledger_answer(self.records(), scope, files@[i])) {
                    (Some(d), Some(v)) => d@ == v,
                    (None, None) => true,
                    _ => false,
                }),
    {
        if files.len() > MAX_FILE_DIGEST_BATCH {
            return Err(LedgerError::TooManyFiles);
        }
        let mut found: Vec<Option<CacheDigest>> = Vec::new();
        let mut i: usize = 0;
        while i < files.len()
            invariant
                i <= files.len(),
                self.wf(),
                found.len() == i,
                forall|k: int| 0 <= k < i ==> match (#[trigger] found@[k], ledger_answer(self.records(), scope, files@[k])) {
                    (Some(d), Some(v)) => d@ == v,
                    (None, None) => true,
                    _ => false,
                },
            decreases files.len() - i,
        {
            let file = &files[i];
            let answer = match self.slot_of(scope, file.path.as_str()) {
                Some(k) => {
                    if self.entries[k].1.file.same_as(file) {
                        Some(self.entries[k].1.digest.clone())
                    } else {
                        None
                    }
                },
                None => None,
            };
            found.push(answer);
            i = i + 1;
        }
        Ok(found)
    }

    /// Hold `entry` under its scope and path, replacing what was there.
    fn put(&mut self, scope: FileDigestScope, entry: RecordedFileDigest)
        requires
            old(self).wf(),
        ensures
            final(self).wf(),
            final(self).records().len() <= old(self).records().len() + 1,
            slot_record(old(self).records(), scope, entry.file.path@) is Some ==> final(self).records().len() == old(self).records().len(),
            forall|s: FileDigestScope, p: Seq<char>| #[trigger] slot_record(final(self).records(), s, p)
                == if s == scope && same_path(entry.file.path@, p) { Some(entry) } else { slot_record(old(self).records(), s, p) },
    {
        let ghost before = self.entries@;
        match self.slot_of(scope, entry.file.path.as_str()) {
            Some(k) => {
                assert(same_slot(before[k as int], scope, entry.file.path@));
                self.entries.set(k, (scope, entry));
                proof {
                    lemma_slots_after_set(before, k as int, scope, entry);
                }
            },
            None => {
                self.entries.push((scope, entry));
                proof {
                    lemma_slots_after_push(before, scope, entry);
                }
            },
        }
    }

    /// Record digests of files a shim read in full. The ledger is capped
    /// rather than evicted: it never grows past [`MAX_FILE_DIGEST_ENTRIES`]
    /// (or past its size, where it was larger) and no record leaves it. Every record must pass
    /// [`validate_file_digest_record`]; a ledger at its size limit still
    /// refreshes the slots it holds, and stops at the first new one.
    pub fn record(&mut self, scope: FileDigestScope, entries: Vec<RecordedFileDigest>) -> (r: Result<(), LedgerError>)
        requires
            old(self).wf(),
        ensures
            final(self).wf(),
            entries.len() > MAX_FILE_DIGEST_BATCH ==> r == Err::<(), LedgerError>(LedgerError::TooManyFiles),
            r is Err ==> final(self).records() == old(self).records(),
            r is Ok <==> (entries.len() <= MAX_FILE_DIGEST_BATCH
                && forall|i: int| 0 <= i < entries.len() ==> record_verdict(#[trigger] entries@[i]) is Ok),
            r is Ok ==> exists|n: int| {
                &&& 0 <= n <= entries.len()
                &&& forall|s: FileDigestScope, p: Seq<char>| #[trigger] slot_record(final(self).records(), s, p)
                    == slot_after_record(old(self).records(), scope, entries@.take(n), s, p)
                &&& old(self).records().len() + entries.len() <= MAX_FILE_DIGEST_ENTRIES ==> n == entries.len()
                &&& n < entries.len() ==> final(self).records().len() >= MAX_FILE_DIGEST_ENTRIES
                    && slot_record(final(self).records(), scope, entries@[n].file.path@) is None
            },
            final(self).records().len() <= capped_len(old(self).records().len()),
    {
        if entries.len() > MAX_FILE_DIGEST_BATCH {
            return Err(LedgerError::TooManyFiles);
        }
        let mut v: usize = 0;
        while v < entries.len()
            invariant
                v <= entries.len(),
                entries.len() <= MAX_FILE_DIGEST_BATCH,
                self.wf(),
                self.records() == old(self).records(),
                forall|i: int| 0 <= i < v ==> record_verdict(#[trigger] entries@[i]) is Ok,
            decreases entries.len() - v,
        {
            match validate_file_digest_record(&entries[v]) {
                Err(e) => {
                    return Err(LedgerError::InvalidRecord(e));
                },
                Ok(()) => {},
            }
            v = v + 1;
        }
        let mut i: usize = 0;
        while i < entries.len()
            invariant
                i <= entries.len(),
                self.wf(),
                self.records().len() <= old(self).records().len() + i,
                self.records().len() <= capped_len(old(self).records().len()),
                forall|s: FileDigestScope, p: Seq<char>| #[trigger] slot_record(self.records(), s, p)
                    == slot_after_record(old(self).records(), scope, entries@.take(i as int), s, p),
            ensures
                i <= entries.len(),
                self.wf(),
                self.records().len() <= capped_len(old(self).records().len()),
                forall|s: FileDigestScope, p: Seq<char>| #[trigger] slot_record(self.records(), s, p)
                    == slot_after_record(old(self).records(), scope, entries@.take(i as int), s, p),
                old(self).records().len() + entries.len() <= MAX_FILE_DIGEST_ENTRIES ==> i == entries.len(),
                i < entries.len() ==> self.records().len() >= MAX_FILE_DIGEST_ENTRIES
                    && slot_record(self.records(), scope, entries@[i as int].file.path@) is None,
            decreases entries.len() - i,
        {
            let entry = entries[i].clone();
            if self.entries.len() >= MAX_FILE_DIGEST_ENTRIES && self.slot_of(scope, entry.file.path.as_str()).is_none() {
                break;
            }
            let ghost before = self.records();
            self.put(scope, entry);
            proof {
                let es = entries@.take(i + 1);
                assert(es.drop_last() =~= entries@.take(i as int));
                assert(es.last() == entry);
                assert forall|s: FileDigestScope, p: Seq<char>| #[trigger] slot_record(self.records(), s, p)
                    == slot_after_record(old(self).records(), scope, es, s, p) by {
                    assert(slot_record(before, s, p) == slot_after_record(old(self).records(), scope, entries@.take(i as int), s, p));
                }
            }
            i = i + 1;
        }
        Ok(())
    }

    /// Start from records an earlier session left behind, skipping invalid
    /// ones and keeping what this session already holds; returns how many
    /// were taken. Stops once the ledger is full.
    pub fn seed(&mut self, entries: Vec<(FileDigestScope, RecordedFileDigest)>) -> (r: usize)
        requires
            old(self).wf(),
        ensures
            final(self).wf(),
            r <= entries.len(),
            exists|n: int| {
                &&& 0 <= n <= entries.len()
                &&& forall|s: FileDigestScope, p: Seq<char>| #[trigger] slot_record(final(self).records(), s, p)
                    == slot_after_seed(old(self).records(), entries@.take(n), s, p)
                &&& r == seeds_taken(old(self).records(), entries@.take(n))
                &&& n < entries.len() ==> final(self).records().len() >= MAX_FILE_DIGEST_ENTRIES
            },
            final(self).records().len() <= capped_len(old(self).records().len()),
    {
        let mut seeded: usize = 0;
        let mut i: usize = 0;
        while i < entries.len()
            invariant
                i <= entries.len(),
                seeded <= i,
                self.wf(),
                forall|s: FileDigestScope, p: Seq<char>| #[trigger] slot_record(self.records(), s, p)
                    == slot_after_seed(old(self).records(), entries@.take(i as int), s, p),
                seeded == seeds_taken(old(self).records(), entries@.take(i as int)),
                self.records().len() <= capped_len(old(self).records().len()),
            ensures
                i <= entries.len(),
                seeded <= i,
                self.wf(),
                self.records().len() <= capped_len(old(self).records().len()),
                forall|s: FileDigestScope, p: Seq<char>| #[trigger] slot_record(self.records(), s, p)
                    == slot_after_seed(old(self).records(), entries@.take(i as int), s, p),
                seeded == seeds_taken(old(self).records(), entries@.take(i as int)),
                i < entries.len() ==> self.records().len() >= MAX_FILE_DIGEST_ENTRIES,
            decreases entries.len() - i,
        {
            if self.entries.len() >= MAX_FILE_DIGEST_ENTRIES {
                break;
            }
            let (scope, entry) = (entries[i].0, entries[i].1.clone());
            let ghost es = entries@.take(i + 1);
            assert(es.drop_last() =~= entries@.take(i as int));
            assert(es.last() == entries@[i as int]);
            assert(entries@[i as int] == (scope, entry));
            let ghost before = self.records();
            let valid = validate_file_digest_record(&entry).is_ok();
            let empty = self.slot_of(scope, entry.file.path.as_str()).is_none();
            if valid && empty {
                self.put(scope, entry);
                seeded = seeded + 1;
                proof {
                    assert forall|s: FileDigestScope, p: Seq<char>| #[trigger] slot_record(self.records(), s, p)
                        == slot_after_seed(old(self).records(), es, s, p) by {
                        assert(slot_record(before, s, p) == slot_after_seed(old(self).records(), entries@.take(i as int), s, p));
                        if s == scope && same_path(entry.file.path@, p) {
                            lemma_slot_same_path(before, scope, entry.file.path@, p);
                        }
                    }
                }
            } else {
                proof {
                    assert forall|s: FileDigestScope, p: Seq<char>| #[trigger] slot_record(self.records(), s, p)
                        == slot_after_seed(old(self).records(), es, s, p) by {
                        assert(slot_record(before, s, p) == slot_after_seed(old(self).records(), entries@.take(i as int), s, p));
                        if s == scope && same_path(entry.file.path@, p) {
                            lemma_slot_same_path(before, scope, entry.file.path@, p);
                        }
                    }
                }
            }
            i = i + 1;
        }
        seeded
    }

    /// Everything the ledger holds, for a later session to start from.
    pub fn entries(&self) -> (r: Vec<(FileDigestScope, RecordedFileDigest)>)
        ensures
            r@ == self.records(),
    {
        let mut out: Vec<(FileDigestScope, RecordedFileDigest)> = Vec::new();
        let mut i: usize = 0;
        while i < self.entries.len()
            invariant
                i <= self.entries.len(),
                out@ == self.entries@.take(i as int),
            decreases self.entries.len() - i,
        {
            out.push((self.entries[i].0, self.entries[i].1.clone()));
            assert(out@ =~= self.entries@.take(i + 1));
            i = i + 1;
        }
        assert(self.entries@.take(self.entries.len() as int) == self.entries@);
        out
    }
}

} // verus!

verus! {

/// What reading a file for its digest came to.
#[derive(Debug, Clone)]
pub enum FileDigestResolution {
    /// The file's contents hash to this digest.
    Digest(CacheDigest),
    /// The file embeds a timestamp macro, so no digest can stand for it.
    EmbeddedTimestampMacro,
    /// The file could not be read, or changed while it was read.
    Unresolved,
}

/// Keep what a read of `requested` found only if the file still had that
/// identity once the read was over (`current`, where metadata can stand in
/// for the contents) and, for a digest, its size agrees with the identity's
/// length; a digest kept is also worth recording. Anything else is
/// unresolved: the read may have seen another version of the file.
pub fn settle_resolution(requested: &FileIdentity, read: FileDigestResolution, current: Option<&FileIdentity>) -> (r: (FileDigestResolution, bool))
    ensures
        ({
            let unchanged = current matches Some(c) && same_identity(c, requested);
            match read {
                FileDigestResolution::Digest(d) => if unchanged && d.size == requested.len {
                    r.0 matches FileDigestResolution::Digest(x) && x@ == d@ && r.1
                } else {
                    r.0 is Unresolved && !r.1
                },
                FileDigestResolution::EmbeddedTimestampMacro => if unchanged {
                    r.0 is EmbeddedTimestampMacro && !r.1
                } else {
                    r.0 is Unresolved && !r.1
                },
                FileDigestResolution::Unresolved => r.0 is Unresolved && !r.1,
            }
        }),
{
    let unchanged = match current {
        Some(c) => c.same_as(requested),
        None => false,
    };
    match read {
        FileDigestResolution::Digest(d) => {
            if unchanged && d.size == requested.len {
                (FileDigestResolution::Digest(d), true)
            } else {
                (FileDigestResolution::Unresolved, false)
            }
        },
        FileDigestResolution::EmbeddedTimestampMacro => {
            if unchanged {
                (FileDigestResolution::EmbeddedTimestampMacro, false)
            } else {
                (FileDigestResolution::Unresolved, false)
            }
        },
        FileDigestResolution::Unresolved => (FileDigestResolution::Unresolved, false),
    }
}

} // verus!

verus! {

proof fn lemma_last_recorded(entries: Seq<(FileDigestScope, RecordedFileDigest)>, scope: FileDigestScope, es: Seq<RecordedFileDigest>, i: int)
    requires
        0 <= i < es.len(),
        forall|j: int| i < j < es.len() ==> !same_path((#[trigger] es[j]).file.path@, es[i].file.path@),
    ensures
        slot_after_record(entries, scope, es, scope, es[i].file.path@) == Some(es[i]),
    decreases es.len(),
{
    if i < es.len() - 1 {
        assert(es.drop_last()[i] == es[i]);
        assert forall|j: int| i < j < es.drop_last().len() implies !same_path((#[trigger] es.drop_last()[j]).file.path@, es.drop_last()[i].file.path@) by {
            assert(es.drop_last()[j] == es[j]);
        }
        lemma_last_recorded(entries, scope, es.drop_last(), i);
    }
}

/// What a ledger records, a lookup gives back: once `after` holds `es`
/// recorded under `scope` over `before` (each slot as
/// [`slot_after_record`] says), the identity of the last record for a path
/// finds that record's digest.
pub proof fn lemma_find_after_record(
    before: Seq<(FileDigestScope, RecordedFileDigest)>,
    after: Seq<(FileDigestScope, RecordedFileDigest)>,
    scope: FileDigestScope,
    es: Seq<RecordedFileDigest>,
    i: int,
)
    requires
        forall|s: FileDigestScope, p: Seq<char>| #[trigger] slot_record(after, s, p) == slot_after_record(before, scope, es, s, p),
        0 <= i < es.len(),
        forall|j: int| i < j < es.len() ==> !same_path((#[trigger] es[j]).file.path@, es[i].file.path@),
    ensures
        ledger_answer(after, scope, es[i].file) == Some(es[i].digest@),
{
    lemma_last_recorded(before, scope, es, i);
    assert(slot_record(after, scope, es[i].file.path@) == Some(es[i]));
}

} // verus!
