//! What a C or C++ compilation read: its content-addressed inputs, the name
//! manifests of the directories it searched, and the predictions that let a
//! later run rebuild the same inputs before compiling.
use vstd::prelude::*;
use vstd::utf8::encode_utf8;
use crate::agent::digest::{CacheDigest, DigestView, blake3_hex, same_digest};
use crate::agent::keyed::{pairs, keys_sorted, as_map, upsert, lemma_sorted_lists};
use crate::agent::file_digest::{FileIdentity, same_identity};
use crate::cc::reason::{CcBypassReason, BypassView};
use crate::cc::prediction::{PathMapping, PathMappingView, mappings_view, denormalize_from, denormalize_path};
use crate::path::last_index;
use crate::text::{chars_of, eq_lit, string_of, is_prefix, starts_with, strip_prefix, lit};

verus! {

/// Marker distinguishing an include-directory name manifest from a file input.
pub const INCLUDE_MANIFEST_PREFIX: &'static str = "@include-manifest:";

/// Most inputs one prediction or discovery may name.
pub const MAX_PREDICTED_INPUTS: usize = 16384;

/// Most includable names all manifests of one compilation may list.
pub const MAX_MANIFEST_ENTRIES: usize = 16384;

/// The marker, as text.
pub open spec fn manifest_prefix() -> Seq<char> {
    "@include-manifest:"@
}

/// Whether an input path is an include-directory manifest entry.
pub fn is_manifest_input(path: &str) -> (r: bool)
    ensures
        r == is_prefix(manifest_prefix(), path@),
{
    let text = chars_of(path);
    starts_with(&text, INCLUDE_MANIFEST_PREFIX)
}

/// A text with ASCII capitals lowered.
pub open spec fn ascii_lower(s: Seq<char>) -> Seq<char> {
    s.map_values(|c: char| if 'A' <= c && c <= 'Z' { ((c as int) + 32) as char } else { c })
}

/// Extensions a file must carry to be a plausible `#include` target; the
/// precompiled-header ones are here because a precompiled header answers an
/// `#include` without being named by one.
pub open spec fn includable_extensions() -> Seq<Seq<char>> {
    seq!["c"@, "c++"@, "cc"@, "cpp"@, "cxx"@, "def"@, "gch"@, "h"@, "h++"@, "hh"@, "hpp"@, "hxx"@, "inc"@,
        "inl"@, "ipp"@, "pch"@, "tcc"@]
}

/// Whether a file name could be what an `#include` directive names: one
/// whose extension (after the last dot of a non-empty stem) is includable in
/// any case, or one with no extension that is not a dot file.
pub open spec fn is_includable_name(name: Seq<char>) -> bool {
    match last_index(name, '.') {
        Some(i) => if i > 0 {
            includable_extensions().contains(ascii_lower(name.skip(i + 1)))
        } else {
            !(name.len() > 0 && name[0] == '.')
        },
        None => !(name.len() > 0 && name[0] == '.'),
    }
}

fn lowered(s: &[char]) -> (r: Vec<char>)
    ensures
        r@ == ascii_lower(s@),
{
    let mut out: Vec<char> = Vec::new();
    let mut i: usize = 0;
    while i < s.len()
        invariant
            i <= s.len(),
            out@ == ascii_lower(s@.take(i as int)),
        decreases s.len() - i,
    {
        let c = s[i];
        let l = if 'A' <= c && c <= 'Z' { ((c as u32) + 32) as u8 as char } else { c };
        assert(l == (if 'A' <= c && c <= 'Z' { ((c as int) + 32) as char } else { c }));
        out.push(l);
        assert(ascii_lower(s@.take(i + 1)) =~= ascii_lower(s@.take(i as int)).push(l));
        i = i + 1;
    }
    assert(s@.take(s.len() as int) == s@);
    out
}

/// Whether a file name could be what an `#include` directive names, see
/// [`is_includable_name`].
pub fn is_includable(name: &str) -> (r: bool)
    ensures
        r == is_includable_name(name@),
{
    let text = chars_of(name);
    let dot_file = text.len() > 0 && text[0] == '.';
    match crate::path::find_last_char(&text, '.') {
        Some(i) => {
            if i > 0 {
                let extension = crate::text::skip(&text, i + 1);
                let lower = lowered(&extension);
                let names: [&str; 17] = ["c", "c++", "cc", "cpp", "cxx", "def", "gch", "h", "h++", "hh", "hpp", "hxx", "inc", "inl", "ipp", "pch", "tcc"];
                let known = crate::text::is_one_of(&lower, &names);
                assert(names@.map_values(|s: &str| s@) =~= includable_extensions());
                known
            } else {
                !dot_file
            }
        },
        None => !dot_file,
    }
}


/// Names joined by newlines.
pub open spec fn newline_joined(names: Seq<Seq<char>>) -> Seq<char>
    decreases names.len(),
{
    if names.len() == 0 {
        Seq::empty()
    } else if names.len() == 1 {
        names[0]
    } else {
        newline_joined(names.drop_last()) + seq!['\n'] + names.last()
    }
}

/// The digest of a directory's name manifest: the includable names beneath
/// it, sorted, one per line.
pub open spec fn names_digest(sorted: Seq<Seq<char>>) -> DigestView {
    let bytes = encode_utf8(newline_joined(sorted));
    DigestView { algorithm: "blake3"@, hash: blake3_hex(bytes), size: bytes.len() as u64 }
}

/// The includable entries among `(relative path, file name)` pairs.
pub open spec fn includable_paths(entries: Seq<(Seq<char>, Seq<char>)>) -> Set<Seq<char>> {
    Set::new(|p: Seq<char>| exists|i: int| 0 <= i < entries.len() && entries[i].0 == p && is_includable_name(entries[i].1))
}

/// How many of `entries` are includable.
pub open spec fn includable_count(entries: Seq<(Seq<char>, Seq<char>)>) -> nat
    decreases entries.len(),
{
    if entries.len() == 0 {
        0
    } else {
        includable_count(entries.drop_last()) + if is_includable_name(entries.last().1) { 1nat } else { 0nat }
    }
}

/// Entries as plain values.
pub open spec fn entry_texts(entries: Seq<(String, String)>) -> Seq<(Seq<char>, Seq<char>)> {
    entries.map_values(|e: (String, String)| (e.0@, e.1@))
}

/// The name manifest of one directory from the files a walk beneath it
/// found, each as its path relative to the directory and its file name.
///
/// Only includable names count; each counts against `budget`, which all
/// manifests of one compilation share, and a walk that takes the budget past
/// [`MAX_MANIFEST_ENTRIES`] refuses the compilation. Names only: the contents
/// of anything read are digested as inputs.
pub fn include_manifest(entries: &Vec<(String, String)>, budget: &mut usize) -> (r: Result<CacheDigest, CcBypassReason>)
    requires
        forall|i: int, j: int| 0 <= i < j < entries.len() ==> (#[trigger] entries@[i]).0@ != (#[trigger] entries@[j]).0@,
    ensures
        match r {
            Ok(d) => (includable_count(entry_texts(entries@)) == 0 || *old(budget) + includable_count(entry_texts(entries@)) <= MAX_MANIFEST_ENTRIES)
                && *final(budget) == *old(budget) + includable_count(entry_texts(entries@))
                && exists|sorted: Seq<Seq<char>>| {
                    &&& forall|i: int, j: int| 0 <= i < j < sorted.len() ==> crate::agent::digest::text_less(#[trigger] sorted[i], #[trigger] sorted[j])
                    &&& sorted.to_set() == includable_paths(entry_texts(entries@))
                    &&& d@ == names_digest(sorted)
                },
            Err(e) => includable_count(entry_texts(entries@)) > 0
                && *old(budget) + includable_count(entry_texts(entries@)) > MAX_MANIFEST_ENTRIES
                && e@ == BypassView::TooManyInputs,
        },
{
    let ghost es = entry_texts(entries@);
    let mut names: Vec<(String, ())> = Vec::new();
    let mut i: usize = 0;
    let start = *budget;
    while i < entries.len()
        invariant
            i <= entries.len(),
            es == entry_texts(entries@),
            start == *old(budget),
            *budget == start + includable_count(es.take(i as int)),
            includable_count(es.take(i as int)) > 0 ==> *budget <= MAX_MANIFEST_ENTRIES,
            keys_sorted(pairs(names@)),
            forall|p: Seq<char>| as_map(pairs(names@)).contains_key(p) <==> includable_paths(es.take(i as int)).contains(p),
        decreases entries.len() - i,
    {
        assert(es.take(i + 1).drop_last() == es.take(i as int));
        assert(es.take(i + 1).last() == es[i as int]);
        assert(es[i as int] == (entries@[i as int].0@, entries@[i as int].1@));
        let ghost before = names@;
        if is_includable(entries[i].1.as_str()) {
            if *budget >= MAX_MANIFEST_ENTRIES {
                proof {
                    lemma_count_grows(es, (i + 1) as int);
                }
                return Err(CcBypassReason::TooManyInputs);
            }
            *budget = *budget + 1;
            upsert(&mut names, entries[i].0.clone(), ());
        }
        assert forall|p: Seq<char>| as_map(pairs(names@)).contains_key(p) <==> includable_paths(es.take(i + 1)).contains(p) by {
            let grown = es.take(i + 1);
            if includable_paths(grown).contains(p) {
                let k = choose|k: int| 0 <= k < grown.len() && grown[k].0 == p && is_includable_name(grown[k].1);
                if k < i {
                    assert(es.take(i as int)[k] == grown[k]);
                    assert(includable_paths(es.take(i as int)).contains(p));
                }
            }
            if includable_paths(es.take(i as int)).contains(p) {
                let k = choose|k: int| 0 <= k < es.take(i as int).len() && es.take(i as int)[k].0 == p && is_includable_name(es.take(i as int)[k].1);
                assert(grown[k] == es.take(i as int)[k]);
            }
            if p == es[i as int].0 && is_includable_name(es[i as int].1) {
                assert(grown[i as int] == es[i as int]);
            }
        }
        i = i + 1;
    }
    assert(es.take(entries.len() as int) == es);
    // The names in order, one per line.
    let ghost sorted = pairs(names@).map_values(|e: (Seq<char>, ())| e.0);
    let mut text: Vec<char> = Vec::new();
    let mut k: usize = 0;
    while k < names.len()
        invariant
            k <= names.len(),
            sorted == pairs(names@).map_values(|e: (Seq<char>, ())| e.0),
            text@ == newline_joined(sorted.take(k as int)),
        decreases names.len() - k,
    {
        let ghost before = text@;
        if k > 0 {
            text.push('\n');
        }
        let name = chars_of(names[k].0.as_str());
        let mut c: usize = 0;
        while c < name.len()
            invariant
                c <= name.len(),
                text@ == (if k > 0 { before + seq!['\n'] } else { before }) + name@.take(c as int),
            decreases name.len() - c,
        {
            text.push(name[c]);
            assert(name@.take(c + 1) =~= name@.take(c as int).push(name@[c as int]));
            assert(text@ =~= (if k > 0 { before + seq!['\n'] } else { before }) + name@.take(c + 1));
            c = c + 1;
        }
        assert(name@.take(name.len() as int) == name@);
        assert(sorted[k as int] == name@);
        assert(sorted.take(k + 1).drop_last() == sorted.take(k as int));
        assert(sorted.take(k + 1).last() == sorted[k as int]);
        if k == 0 {
            assert(sorted.take(1) =~= seq![sorted[0]]);
        }
        assert(text@ == newline_joined(sorted.take(k + 1)));
        k = k + 1;
    }
    assert(sorted.take(names.len() as int) == sorted);
    let joined = string_of(&text);
    let digest = CacheDigest::blake3(joined.as_str().as_bytes());
    proof {
        lemma_sorted_lists(pairs(names@));
        assert forall|a: int, b: int| 0 <= a < b < sorted.len() implies crate::agent::digest::text_less(#[trigger] sorted[a], #[trigger] sorted[b]) by {
            assert(sorted[a] == pairs(names@)[a].0);
            assert(sorted[b] == pairs(names@)[b].0);
        }
        assert forall|p: Seq<char>| sorted.to_set().contains(p) <==> includable_paths(es).contains(p) by {
            if sorted.contains(p) {
                let m = choose|m: int| 0 <= m < sorted.len() && sorted[m] == p;
                assert(pairs(names@).contains(pairs(names@)[m]));
                assert(pairs(names@)[m] == (p, ()));
            }
            if includable_paths(es).contains(p) {
                assert(as_map(pairs(names@)).contains_key(p));
                assert(pairs(names@).contains((p, ())));
                let m = choose|m: int| 0 <= m < pairs(names@).len() && pairs(names@)[m] == (p, ());
                assert(sorted[m] == p);
            }
        }
        assert(sorted.to_set() =~= includable_paths(es));
    }
    Ok(digest)
}

proof fn lemma_count_grows(es: Seq<(Seq<char>, Seq<char>)>, n: int)
    requires
        0 < n <= es.len(),
        is_includable_name(es[n - 1].1),
    ensures
        includable_count(es.take(n)) == includable_count(es.take(n - 1)) + 1,
        includable_count(es.take(n)) <= includable_count(es),
{
    assert(es.take(n).drop_last() == es.take(n - 1));
    lemma_count_monotone(es, n);
}

proof fn lemma_count_monotone(es: Seq<(Seq<char>, Seq<char>)>, n: int)
    requires
        0 <= n <= es.len(),
    ensures
        includable_count(es.take(n)) <= includable_count(es),
    decreases es.len() - n,
{
    if n < es.len() {
        lemma_count_monotone(es, n + 1);
        assert(es.take(n + 1).drop_last() == es.take(n));
    } else {
        assert(es.take(n) == es);
    }
}


/// One file input paired with the digest used in the action key; the path
/// is the input's host path, or an include-manifest pseudo-path.
#[derive(Debug, Clone, PartialEq, Eq)]
pub struct CcActionInput {
    /// Absolute host path used to read and verify the input, or an
    /// include-manifest pseudo-path.
    pub path: String,
    /// Digest of the input contents, or of the directory's name manifest.
    pub digest: CacheDigest,
}

/// Canonical action descriptor and its content digest.
#[derive(Debug, Clone, PartialEq, Eq)]
pub struct CcAction {
    /// Digest of `bytes`, used as the action-cache key.
    pub digest: CacheDigest,
    /// Canonical serialized action descriptor.
    pub bytes: Vec<u8>,
}

/// A complete, content-addressed compiler input manifest.
#[derive(Debug, Clone, PartialEq, Eq)]
pub struct CcDiscoveredInputs {
    working_dir: String,
    /// Content-addressed inputs, including include-directory manifests.
    pub inputs: Vec<CcActionInput>,
    /// For each file input, in order, the identity it had when its digest
    /// was taken, where the digest came from a record of that identity.
    identities: Vec<Option<FileIdentity>>,
}

/// The file inputs among `inputs`: those that are not manifest entries.
pub open spec fn file_inputs(inputs: Seq<CcActionInput>) -> Seq<CcActionInput> {
    inputs.filter(|input: CcActionInput| !is_prefix(manifest_prefix(), input.path@))
}

/// Whether file `i` may be trusted without reading it again: its digest was
/// taken from a record of an identity, and the file still has exactly that
/// identity.
pub open spec fn vouched(recorded: Seq<Option<FileIdentity>>, now: Seq<Option<FileIdentity>>, i: int) -> bool {
    &&& 0 <= i < recorded.len()
    &&& 0 <= i < now.len()
    &&& recorded[i] is Some
    &&& now[i] is Some
    &&& same_identity(&recorded[i]->Some_0, &now[i]->Some_0)
}

/// The first file from the `i`-th on that is not vouched for and whose
/// digest read again differs from the recorded one, or could not be read.
pub open spec fn first_changed_from(
    files: Seq<CcActionInput>,
    recorded: Seq<Option<FileIdentity>>,
    now: Seq<Option<FileIdentity>>,
    reread: Seq<Option<Result<CacheDigest, String>>>,
    i: int,
) -> Option<BypassView>
    decreases files.len() - i,
{
    if i < 0 || i >= files.len() || i >= reread.len() {
        None
    } else if vouched(recorded, now, i) {
        first_changed_from(files, recorded, now, reread, i + 1)
    } else {
        match reread[i] {
            Some(Err(message)) => Some(BypassView::InputRead { path: files[i].path@, message: message@ }),
            Some(Ok(d)) => if d@ != files[i].digest@ {
                Some(BypassView::InputChanged(files[i].path@))
            } else {
                first_changed_from(files, recorded, now, reread, i + 1)
            },
            None => first_changed_from(files, recorded, now, reread, i + 1),
        }
    }
}

impl CcDiscoveredInputs {
    /// Inputs discovered under `working_dir`.
    pub fn new(working_dir: String, inputs: Vec<CcActionInput>) -> (r: Self)
        ensures
            r.spec_working_dir() == working_dir@,
            r.spec_inputs() == inputs@,
            r.spec_identities().len() == 0,
    {
        CcDiscoveredInputs { working_dir, inputs, identities: Vec::new() }
    }

    /// Inputs discovered under `working_dir`, with the identity each file
    /// input had when its digest was taken from a record of it.
    pub fn with_identities(working_dir: String, inputs: Vec<CcActionInput>, identities: Vec<Option<FileIdentity>>) -> (r: Self)
        ensures
            r.spec_working_dir() == working_dir@,
            r.spec_inputs() == inputs@,
            r.spec_identities() == identities@,
    {
        CcDiscoveredInputs { working_dir, inputs, identities }
    }

    /// For each file input, the identity its digest was recorded against.
    pub closed spec fn spec_identities(&self) -> Seq<Option<FileIdentity>> {
        self.identities@
    }

    /// The compiler working directory the inputs were discovered under.
    pub closed spec fn spec_working_dir(&self) -> Seq<char> {
        self.working_dir@
    }

    /// The discovered inputs.
    pub closed spec fn spec_inputs(&self) -> Seq<CcActionInput> {
        self.inputs@
    }

    /// The working directory and the inputs, given up together.
    pub fn into_parts(self) -> (r: (String, Vec<CcActionInput>))
        ensures
            r.0@ == self.spec_working_dir(),
            r.1@ == self.spec_inputs(),
    {
        (self.working_dir, self.inputs)
    }

    /// File inputs, excluding include-directory manifests.
    pub fn files(&self) -> (r: Vec<CcActionInput>)
        ensures
            r@ == file_inputs(self.spec_inputs()),
    {
        let ghost all = self.inputs@;
        let ghost f = |input: CcActionInput| !is_prefix(manifest_prefix(), input.path@);
        let mut out: Vec<CcActionInput> = Vec::new();
        let mut i: usize = 0;
        while i < self.inputs.len()
            invariant
                i <= self.inputs.len(),
                all == self.inputs@,
                f == (|input: CcActionInput| !is_prefix(manifest_prefix(), input.path@)),
                out@ == all.take(i as int).filter(f),
            decreases self.inputs.len() - i,
        {
            let keep = !is_manifest_input(self.inputs[i].path.as_str());
            if keep {
                let input = CcActionInput { path: self.inputs[i].path.clone(), digest: self.inputs[i].digest.clone() };
                assert(input == all[i as int]);
                out.push(input);
            }
            assert(all.take(i + 1).drop_last() == all.take(i as int));
            assert(all.take(i + 1).last() == all[i as int]);
            assert(out@ == all.take(i + 1).filter(f)) by {
                reveal_with_fuel(Seq::<CcActionInput>::filter, 1);
            }
            i = i + 1;
        }
        assert(all.take(self.inputs.len() as int) == all);
        out
    }

    /// Which files must be read again before publication: each, in the
    /// order of [`Self::files`], unless it still has the identity its digest
    /// was recorded against; `now` holds each file's identity now, where its
    /// metadata could be read.
    pub fn rereads(&self, now: &Vec<Option<FileIdentity>>) -> (r: Vec<bool>)
        requires
            now.len() == file_inputs(self.spec_inputs()).len(),
        ensures
            r.len() == now.len(),
            forall|i: int| 0 <= i < r.len() ==> r@[i] == !vouched(self.spec_identities(), now@, i),
    {
        let mut out: Vec<bool> = Vec::new();
        let mut i: usize = 0;
        while i < now.len()
            invariant
                i <= now.len(),
                out.len() == i,
                forall|k: int| 0 <= k < i ==> out@[k] == !vouched(self.spec_identities(), now@, k),
            decreases now.len() - i,
        {
            let trusted = i < self.identities.len() && match (&self.identities[i], &now[i]) {
                (Some(recorded), Some(current)) => recorded.same_as(current),
                _ => false,
            };
            out.push(!trusted);
            i = i + 1;
        }
        out
    }

    /// Judge every discovered file before publication. A file that still has
    /// the identity its digest was recorded against is trusted without being
    /// read; any other was read again, and `reread` holds the digest it has
    /// now or why it could not be read. A changed input degrades to a miss
    /// rather than storing an object under a stale key.
    pub fn verify(&self, now: &Vec<Option<FileIdentity>>, reread: &Vec<Option<Result<CacheDigest, String>>>) -> (r: Result<(), CcBypassReason>)
        requires
            now.len() == file_inputs(self.spec_inputs()).len(),
            reread.len() == now.len(),
            forall|i: int| 0 <= i < now.len() && !vouched(self.spec_identities(), now@, i) ==> (#[trigger] reread@[i]) is Some,
        ensures
            match first_changed_from(file_inputs(self.spec_inputs()), self.spec_identities(), now@, reread@, 0) {
                None => r is Ok,
                Some(e) => r matches Err(x) && x@ == e,
            },
    {
        let files = self.files();
        let ghost fs = files@;
        let ghost rec = self.identities@;
        let checks = self.rereads(now);
        let mut i: usize = 0;
        while i < files.len()
            invariant
                i <= files.len(),
                files.len() == reread.len(),
                checks.len() == reread.len(),
                fs == files@,
                fs == file_inputs(self.spec_inputs()),
                rec == self.spec_identities(),
                forall|k: int| 0 <= k < checks.len() ==> checks@[k] == !vouched(rec, now@, k),
                first_changed_from(fs, rec, now@, reread@, 0) == first_changed_from(fs, rec, now@, reread@, i as int),
            decreases files.len() - i,
        {
            if checks[i] {
                match &reread[i] {
                    Some(Err(message)) => {
                        return Err(CcBypassReason::InputRead { path: files[i].path.clone(), message: message.clone() });
                    },
                    Some(Ok(digest)) => {
                        if !same_digest(digest, &files[i].digest) {
                            return Err(CcBypassReason::InputChanged(files[i].path.clone()));
                        }
                    },
                    None => {},
                }
            }
            i = i + 1;
        }
        Ok(())
    }
}

/// Normalized input names from the last successful execution of one modeled
/// compile.
#[derive(Debug, Clone, PartialEq, Eq)]
pub struct CcInputPrediction {
    /// Prediction schema version.
    pub version: u8,
    /// Normalized input paths, including include-manifest entries.
    pub inputs: Vec<String>,
    /// Names of environment variables that entered the key.
    pub environment: Vec<String>,
    /// Compiler wall time from the successful invocation that produced this
    /// prediction. Zero means no timing hint was recorded.
    pub compiler_duration_ns: u64,
    /// Source file name associated with the timing hint.
    pub source_name: String,
}

/// An entry of a prediction split into whether it names a directory
/// manifest, and the normalized path it names.
pub open spec fn entry_target(entry: Seq<char>) -> (bool, Seq<char>) {
    if is_prefix(manifest_prefix(), entry) {
        (true, entry.skip(manifest_prefix().len() as int))
    } else {
        (false, entry)
    }
}

/// The host paths a prediction's entries name, in order, or the first
/// entry that does not resolve.
pub open spec fn resolved_entries(entries: Seq<Seq<char>>, mappings: Seq<PathMappingView>) -> Result<Seq<(bool, Seq<char>)>, BypassView>
    decreases entries.len(),
{
    if entries.len() == 0 {
        Ok(Seq::empty())
    } else {
        let (is_dir, target) = entry_target(entries[0]);
        match denormalize_from(target, mappings, 0) {
            Err(e) => Err(e),
            Ok(path) => match resolved_entries(entries.drop_first(), mappings) {
                Err(e) => Err(e),
                Ok(rest) => Ok(seq![(is_dir, path)] + rest),
            },
        }
    }
}

/// Whether a prediction is one this adapter reads: schema version 1 and
/// within the input and environment limits.
pub open spec fn prediction_supported(version: u8, inputs: nat, environment: nat) -> bool {
    version == 1 && inputs <= MAX_PREDICTED_INPUTS && environment <= 4096
}

impl CcInputPrediction {
    /// The host paths this prediction names, each with whether it is an
    /// include directory to manifest rather than a file to rehash.
    ///
    /// A prediction from another schema, or over the limits, bypasses; so
    /// does an entry that no longer resolves under the current mappings or an
    /// admitted system root.
    pub fn discover_paths(&self, path_mappings: &[PathMapping]) -> (r: Result<Vec<(bool, String)>, CcBypassReason>)
        ensures
            !prediction_supported(self.version, self.inputs.len() as nat, self.environment.len() as nat)
                ==> (r matches Err(e) && e@ == BypassView::UnsupportedPrediction),
            prediction_supported(self.version, self.inputs.len() as nat, self.environment.len() as nat)
                ==> (match resolved_entries(crate::cargo::args::strs(self.inputs@), mappings_view(path_mappings@)) {
                    Ok(paths) => r matches Ok(v) && v@.map_values(|p: (bool, String)| (p.0, p.1@)) == paths,
                    Err(e) => r matches Err(x) && x@ == e,
                }),
    {
        if self.version != 1 {
            return Err(CcBypassReason::UnsupportedPrediction);
        }
        if self.inputs.len() > MAX_PREDICTED_INPUTS || self.environment.len() > 4 * 1024 {
            return Err(CcBypassReason::UnsupportedPrediction);
        }
        let ghost entries = crate::cargo::args::strs(self.inputs@);
        let ghost ms = mappings_view(path_mappings@);
        let mut out: Vec<(bool, String)> = Vec::new();
        let mut i: usize = 0;
        assert(entries.skip(0) == entries);
        while i < self.inputs.len()
            invariant
                i <= self.inputs.len(),
                prediction_supported(self.version, self.inputs.len() as nat, self.environment.len() as nat),
                entries == crate::cargo::args::strs(self.inputs@),
                ms == mappings_view(path_mappings@),
                match resolved_entries(entries, ms) {
                    Ok(all) => match resolved_entries(entries.skip(i as int), ms) {
                        Ok(rest) => all == out@.map_values(|p: (bool, String)| (p.0, p.1@)) + rest,
                        Err(_) => false,
                    },
                    Err(e) => resolved_entries(entries.skip(i as int), ms) == Err::<Seq<(bool, Seq<char>)>, BypassView>(e),
                },
            decreases self.inputs.len() - i,
        {
            let ghost rest = entries.skip(i as int);
            assert(rest[0] == self.inputs@[i as int]@);
            assert(rest.drop_first() == entries.skip(i + 1));
            let text = chars_of(self.inputs[i].as_str());
            let (is_dir, target) = match strip_prefix(&text, INCLUDE_MANIFEST_PREFIX) {
                Some(directory) => (true, string_of(&directory)),
                None => (false, self.inputs[i].clone()),
            };
            assert((is_dir, target@) == entry_target(rest[0]));
            let ghost before = out@.map_values(|p: (bool, String)| (p.0, p.1@));
            match denormalize_path(target.as_str(), path_mappings) {
                Err(e) => {
                    return Err(e);
                },
                Ok(path) => {
                    let ghost path_view = path@;
                    out.push((is_dir, path));
                    assert(out@.map_values(|p: (bool, String)| (p.0, p.1@)) =~= before.push((is_dir, path_view)));
                },
            }
            i = i + 1;
        }
        assert(entries.skip(self.inputs.len() as int).len() == 0);
        assert(out@.map_values(|p: (bool, String)| (p.0, p.1@)) + Seq::<(bool, Seq<char>)>::empty() == out@.map_values(|p: (bool, String)| (p.0, p.1@)));
        Ok(out)
    }
}

proof fn lemma_last_dot(stem: Seq<char>, ext: Seq<char>)
    requires
        !ext.contains('.'),
    ensures
        last_index(stem + "."@ + ext, '.') == Some(stem.len() as int),
{
    reveal_strlit(".");
    let name = stem + "."@ + ext;
    let l = stem.len() as int;
    assert(name[l] == '.');
    assert(name.contains('.'));
    let i = choose|i: int| 0 <= i < name.len() && name[i] == '.' && forall|j: int| i < j < name.len() ==> name[j] != '.';
    if i < l {
        assert(name[l] != '.');
    } else if i > l {
        assert(name[i] == ext[i - l - 1]);
        assert(ext.contains('.'));
    }
}

/// A file name with a non-empty stem is includable when its extension, in
/// any case, is one a C or C++ `#include` can name (a source or header
/// spelling) or a precompiled header that answers one: `c`, `c++`, `cc`,
/// `cpp`, `cxx`, `def`, `gch`, `h`, `h++`, `hh`, `hpp`, `hxx`, `inc`, `inl`,
/// `ipp`, `pch` or `tcc`.
pub proof fn lemma_includable_extensions(stem: Seq<char>, ext: Seq<char>)
    requires
        stem.len() > 0,
        !ext.contains('.'),
        ({
            let e = ascii_lower(ext);
            e == "c"@ || e == "c++"@ || e == "cc"@ || e == "cpp"@ || e == "cxx"@ || e == "def"@ || e == "gch"@
                || e == "h"@ || e == "h++"@ || e == "hh"@ || e == "hpp"@ || e == "hxx"@ || e == "inc"@ || e == "inl"@
                || e == "ipp"@ || e == "pch"@ || e == "tcc"@
        }),
    ensures
        is_includable_name(stem + "."@ + ext),
{
    lemma_last_dot(stem, ext);
    reveal_strlit(".");
    let name = stem + "."@ + ext;
    assert(name.skip(stem.len() as int + 1) =~= ext);
    lemma_listed_extension(ascii_lower(ext));
}

proof fn lemma_listed_extension(e: Seq<char>)
    requires
        e == "c"@ || e == "c++"@ || e == "cc"@ || e == "cpp"@ || e == "cxx"@ || e == "def"@ || e == "gch"@
            || e == "h"@ || e == "h++"@ || e == "hh"@ || e == "hpp"@ || e == "hxx"@ || e == "inc"@ || e == "inl"@
            || e == "ipp"@ || e == "pch"@ || e == "tcc"@,
    ensures
        includable_extensions().contains(e),
{
    let xs = includable_extensions();
    if e == "c"@ { assert(xs[0] == e); }
    else if e == "c++"@ { assert(xs[1] == e); }
    else if e == "cc"@ { assert(xs[2] == e); }
    else if e == "cpp"@ { assert(xs[3] == e); }
    else if e == "cxx"@ { assert(xs[4] == e); }
    else if e == "def"@ { assert(xs[5] == e); }
    else if e == "gch"@ { assert(xs[6] == e); }
    else if e == "h"@ { assert(xs[7] == e); }
    else if e == "h++"@ { assert(xs[8] == e); }
    else if e == "hh"@ { assert(xs[9] == e); }
    else if e == "hpp"@ { assert(xs[10] == e); }
    else if e == "hxx"@ { assert(xs[11] == e); }
    else if e == "inc"@ { assert(xs[12] == e); }
    else if e == "inl"@ { assert(xs[13] == e); }
    else if e == "ipp"@ { assert(xs[14] == e); }
    else if e == "pch"@ { assert(xs[15] == e); }
    else { assert(xs[16] == e); }
}

/// Only those extensions make a name with a stem includable, and a name
/// without a dot, such as `vector`, is includable whatever its letters.
pub proof fn lemma_includable_names_only(stem: Seq<char>, ext: Seq<char>, bare: Seq<char>)
    requires
        stem.len() > 0,
        !ext.contains('.'),
        !bare.contains('.'),
    ensures
        is_includable_name(stem + "."@ + ext) ==> ({
            let e = ascii_lower(ext);
            e == "c"@ || e == "c++"@ || e == "cc"@ || e == "cpp"@ || e == "cxx"@ || e == "def"@ || e == "gch"@
                || e == "h"@ || e == "h++"@ || e == "hh"@ || e == "hpp"@ || e == "hxx"@ || e == "inc"@ || e == "inl"@
                || e == "ipp"@ || e == "pch"@ || e == "tcc"@
        }),
        is_includable_name(bare),
{
    lemma_last_dot(stem, ext);
    reveal_strlit(".");
    let name = stem + "."@ + ext;
    assert(name.skip(stem.len() as int + 1) =~= ext);
    if is_includable_name(name) {
        lemma_listed_only(ascii_lower(ext));
    }
}

proof fn lemma_listed_only(e: Seq<char>)
    requires
        includable_extensions().contains(e),
    ensures
        e == "c"@ || e == "c++"@ || e == "cc"@ || e == "cpp"@ || e == "cxx"@ || e == "def"@ || e == "gch"@
            || e == "h"@ || e == "h++"@ || e == "hh"@ || e == "hpp"@ || e == "hxx"@ || e == "inc"@ || e == "inl"@
            || e == "ipp"@ || e == "pch"@ || e == "tcc"@,
{
    let xs = includable_extensions();
    let k = choose|k: int| 0 <= k < xs.len() && xs[k] == e;
    if k < 6 {
        assert(xs[0] == "c"@ && xs[1] == "c++"@ && xs[2] == "cc"@ && xs[3] == "cpp"@ && xs[4] == "cxx"@ && xs[5] == "def"@);
    } else if k < 12 {
        assert(xs[6] == "gch"@ && xs[7] == "h"@ && xs[8] == "h++"@ && xs[9] == "hh"@ && xs[10] == "hpp"@ && xs[11] == "hxx"@);
    } else {
        assert(xs[12] == "inc"@ && xs[13] == "inl"@ && xs[14] == "ipp"@ && xs[15] == "pch"@ && xs[16] == "tcc"@);
    }
}

} // verus!
