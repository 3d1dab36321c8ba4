//! What a cache session counts, and the rules by which each reported event
//! adds to the counts.
use vstd::prelude::*;
use crate::agent::keyed::{pairs, keys_sorted, as_map, lookup, upsert};
use crate::text::{chars_of, eq_lit, contains_char, string_of, lit, strip_prefix, is_prefix};
use vstd::string::StringSliceAdditionalSpecFns;

verus! {

/// Longest compiler crate name a shim may report, in bytes.
pub const MAX_CRATE_NAME_BYTES: usize = 256;

/// Local output restoration work performed by one action-cache adapter hit.
#[derive(Debug, Clone, Copy, PartialEq, Eq, Structural)]
pub struct RestoreStats {
    /// Cumulative time spent materializing and validating output files.
    pub duration_ns: u64,
    /// Compiler wall time recorded when this action was originally produced.
    /// Zero means no timing hint was available.
    pub avoided_compiler_duration_ns: u64,
    /// Number of compiler output files restored.
    pub output_files: u64,
    /// Declared size of compiler output files restored.
    pub output_bytes: u64,
    /// Number of restored output files that share data blocks with the CAS.
    pub reflinked_output_files: u64,
    /// Declared size of restored outputs that share data blocks with the CAS.
    pub reflinked_output_bytes: u64,
    /// Number of restored output files that required a byte-for-byte copy.
    pub copied_output_files: u64,
    /// Declared size of restored outputs that required a byte-for-byte copy.
    pub copied_output_bytes: u64,
    /// Number of output files already in place with the cached contents, kept
    /// rather than rewritten.
    pub reused_output_files: u64,
    /// Declared size of outputs kept in place rather than rewritten.
    pub reused_output_bytes: u64,
}

impl Default for RestoreStats {
    fn default() -> (r: Self)
        ensures
            r == (RestoreStats {
                duration_ns: 0, avoided_compiler_duration_ns: 0, output_files: 0, output_bytes: 0,
                reflinked_output_files: 0, reflinked_output_bytes: 0, copied_output_files: 0,
                copied_output_bytes: 0, reused_output_files: 0, reused_output_bytes: 0,
            }),
    {
        RestoreStats {
            duration_ns: 0, avoided_compiler_duration_ns: 0, output_files: 0, output_bytes: 0,
            reflinked_output_files: 0, reflinked_output_bytes: 0, copied_output_files: 0,
            copied_output_bytes: 0, reused_output_files: 0, reused_output_bytes: 0,
        }
    }
}

/// Count and cumulative wall time for one compiler-invocation outcome.
#[derive(Debug, Clone, Copy, PartialEq, Eq, Structural)]
pub struct CompilerStats {
    /// Number of compiler invocations observed.
    pub invocations: u64,
    /// Cumulative wall time spent in those invocations.
    pub duration_ns: u64,
}

impl CompilerStats {
    /// The counts observed for one outcome.
    pub fn new(invocations: u64, duration_ns: u64) -> (r: Self)
        ensures
            r.invocations == invocations,
            r.duration_ns == duration_ns,
    {
        CompilerStats { invocations, duration_ns }
    }
}

impl Default for CompilerStats {
    fn default() -> (r: Self)
        ensures
            r.invocations == 0,
            r.duration_ns == 0,
    {
        CompilerStats { invocations: 0, duration_ns: 0 }
    }
}

/// `a + b`, or the most a `u64` holds.
pub open spec fn sat(a: u64, b: u64) -> u64 {
    if a + b > u64::MAX { u64::MAX } else { (a + b) as u64 }
}

/// `a + b` modulo 2^64, as an atomic counter adds.
pub open spec fn wrap(a: u64, b: u64) -> u64 {
    ((a + b) % 0x1_0000_0000_0000_0000) as u64
}

/// Why a reported event was refused.
#[derive(Debug, Clone, Copy, PartialEq, Eq, Structural)]
pub enum StatsError {
    /// A crate name is longer than 256 bytes or holds a NUL, newline or
    /// carriage return.
    InvalidCrateName,
    /// An outcome is not one of `miss`, `unconsulted`, `bypass`,
    /// `verification` or `incremental`.
    InvalidOutcome,
}

impl StatsError {
    /// The refusal as a sentence.
    pub fn message(&self) -> (r: String)
        ensures
            r@ == match self {
                StatsError::InvalidCrateName => "invalid compiler crate name"@,
                StatsError::InvalidOutcome => "invalid compiler invocation outcome"@,
            },
    {
        let text = match self {
            StatsError::InvalidCrateName => lit("invalid compiler crate name"),
            StatsError::InvalidOutcome => lit("invalid compiler invocation outcome"),
        };
        string_of(&text)
    }
}

/// Whether a reported crate name is acceptable: at most 256 bytes, with no
/// NUL, newline or carriage return.
pub open spec fn crate_name_ok(crate_name: Option<&str>) -> bool {
    match crate_name {
        None => true,
        Some(name) => name.spec_bytes().len() <= MAX_CRATE_NAME_BYTES
            && !name@.contains('\0') && !name@.contains('\n') && !name@.contains('\r'),
    }
}

/// Refuse a crate name that could not have come from a compiler invocation.
pub fn validate_crate_name(crate_name: Option<&str>) -> (r: Result<(), StatsError>)
    ensures
        r is Ok <==> crate_name_ok(crate_name),
        r is Err ==> r == Err::<(), StatsError>(StatsError::InvalidCrateName),
{
    if let Some(name) = crate_name {
        let chars = chars_of(name);
        if name.as_bytes().len() > MAX_CRATE_NAME_BYTES || contains_char(&chars, '\0') || contains_char(&chars, '\n')
            || contains_char(&chars, '\r') {
            return Err(StatsError::InvalidCrateName);
        }
    }
    Ok(())
}

/// The outcomes a compiler invocation may be recorded under.
pub open spec fn known_outcome(outcome: Seq<char>) -> bool {
    outcome == "miss"@ || outcome == "unconsulted"@ || outcome == "bypass"@ || outcome == "verification"@
        || outcome == "incremental"@
}

/// Aggregate cache activity for one task session.
#[derive(Debug, Clone, PartialEq, Eq)]
pub struct AgentStats {
    /// End-to-end lifetime of the task-scoped cache session.
    pub session_duration_ns: u64,
    /// Number of action-result lookups.
    pub lookups: u64,
    /// Compilations no action-result lookup was possible for.
    pub unconsulted: u64,
    /// Number of lookups that found a valid local action result.
    pub hits: u64,
    /// Number of newly stored content-addressed objects.
    pub stores: u64,
    /// Total size of newly stored objects.
    pub stored_bytes: u64,
    /// Number of cache hits compiled again for qualification.
    pub verifications: u64,
    /// Number of qualification builds that diverged from the cached result.
    pub divergences: u64,
    /// CAS payload bytes downloaded from the remote cache.
    pub downloaded_bytes: u64,
    /// CAS payload bytes uploaded to the remote cache.
    pub uploaded_bytes: u64,
    /// Objects published to the remote cache after the build asked for them.
    pub background_uploads: u64,
    /// Queued uploads that did not publish.
    pub background_upload_failures: u64,
    /// Framed requests that published several blobs at once.
    pub remote_blob_pack_uploads: u64,
    /// Blobs published through those framed requests.
    pub remote_blob_pack_upload_blobs: u64,
    /// Time the session spent waiting for queued uploads once the build ended.
    pub upload_drain_duration_ns: u64,
    /// Complete actions staged before an adapter requested them.
    pub prefetched_actions: u64,
    /// Predictions carried by the task manifest this session loaded.
    pub predictions_loaded: u64,
    /// Compilations that were not cacheable, counted by reason, ordered by reason.
    pub bypasses: Vec<(String, u64)>,
    /// Estimated compiler time avoided by restored action hits.
    pub avoided_compiler_duration_ns: u64,
    /// Real compiler work performed in this session, by outcome, ordered by outcome.
    pub compiler: Vec<(String, CompilerStats)>,
    /// Cumulative real compiler time by crate name, ordered by crate name.
    pub slow_compilations: Vec<(String, u64)>,
    /// Remote cache operations that failed and were degraded to a local result.
    pub remote_failures: u64,
    /// Number of task manifest requests made to the remote cache.
    pub remote_manifest_lookups: u64,
    /// Cumulative time spent requesting remote task manifests.
    pub remote_manifest_lookup_duration_ns: u64,
    /// Number of action-result requests made to the remote cache.
    pub remote_action_lookups: u64,
    /// Cumulative time spent requesting remote action results.
    pub remote_action_lookup_duration_ns: u64,
    /// Number of blob requests made to the remote cache.
    pub remote_blob_requests: u64,
    /// Number of packed blob requests made to the remote cache.
    pub remote_blob_pack_requests: u64,
    /// Number of verified blobs received through packed responses.
    pub remote_blob_pack_blobs: u64,
    /// Cumulative time spent downloading and verifying remote blobs.
    pub remote_blob_transfer_duration_ns: u64,
    /// Whether the remote download budget stopped further restores.
    pub remote_download_budget_exhausted: bool,
    /// Cumulative time spent ingesting downloaded blobs into the local CAS.
    pub local_cas_write_duration_ns: u64,
    /// Number of speculative prefetch runs started for task manifests.
    pub prefetch_runs: u64,
    /// Cumulative wall time of speculative task-manifest prefetch runs.
    pub prefetch_duration_ns: u64,
    /// Cumulative time spent staging or materializing and validating cached outputs.
    pub materialization_duration_ns: u64,
    /// Number of compiler output files restored from action hits.
    pub restored_output_files: u64,
    /// Declared size of compiler output files restored from action hits.
    pub restored_output_bytes: u64,
    /// Number of restored output files materialized with filesystem reflinks.
    pub reflinked_output_files: u64,
    /// Declared size of outputs materialized with filesystem reflinks.
    pub reflinked_output_bytes: u64,
    /// Number of restored output files materialized by copying their bytes.
    pub copied_output_files: u64,
    /// Declared size of outputs materialized by copying their bytes.
    pub copied_output_bytes: u64,
    /// Number of output files kept in place, already holding the cached bytes.
    pub reused_output_files: u64,
    /// Declared size of outputs kept in place.
    pub reused_output_bytes: u64,
}

impl Default for AgentStats {
    fn default() -> (r: Self)
        ensures
            r.wf(),
            r.hits == 0,
            r.unconsulted == 0,
            r.lookups == 0,
            r.materialization_duration_ns == 0,
            r.avoided_compiler_duration_ns == 0,
            r.restored_output_files == 0,
            r.restored_output_bytes == 0,
            r.bypasses@.len() == 0,
            r.compiler@.len() == 0,
            r.slow_compilations@.len() == 0,
    {
        AgentStats {
            session_duration_ns: 0, lookups: 0, unconsulted: 0, hits: 0, stores: 0, stored_bytes: 0,
            verifications: 0, divergences: 0, downloaded_bytes: 0, uploaded_bytes: 0,
            background_uploads: 0, background_upload_failures: 0, remote_blob_pack_uploads: 0,
            remote_blob_pack_upload_blobs: 0, upload_drain_duration_ns: 0, prefetched_actions: 0,
            predictions_loaded: 0, bypasses: Vec::new(), avoided_compiler_duration_ns: 0,
            compiler: Vec::new(), slow_compilations: Vec::new(), remote_failures: 0,
            remote_manifest_lookups: 0, remote_manifest_lookup_duration_ns: 0,
            remote_action_lookups: 0, remote_action_lookup_duration_ns: 0, remote_blob_requests: 0,
            remote_blob_pack_requests: 0, remote_blob_pack_blobs: 0,
            remote_blob_transfer_duration_ns: 0, remote_download_budget_exhausted: false,
            local_cas_write_duration_ns: 0, prefetch_runs: 0, prefetch_duration_ns: 0,
            materialization_duration_ns: 0, restored_output_files: 0, restored_output_bytes: 0,
            reflinked_output_files: 0, reflinked_output_bytes: 0, copied_output_files: 0,
            copied_output_bytes: 0, reused_output_files: 0, reused_output_bytes: 0,
        }
    }
}

/// The count a bypass map holds for `kind`, or nothing.
pub open spec fn count_in(m: Map<Seq<char>, u64>, key: Seq<char>) -> u64 {
    if m.contains_key(key) { m[key] } else { 0 }
}

/// The stats a compiler map holds for `outcome`, or zeros.
pub open spec fn compiler_in(m: Map<Seq<char>, CompilerStats>, key: Seq<char>) -> CompilerStats {
    if m.contains_key(key) { m[key] } else { CompilerStats { invocations: 0, duration_ns: 0 } }
}

impl AgentStats {
    /// The keyed counts are ordered and unique by key.
    pub open spec fn wf(&self) -> bool {
        &&& keys_sorted(pairs(self.bypasses@))
        &&& keys_sorted(pairs(self.compiler@))
        &&& keys_sorted(pairs(self.slow_compilations@))
    }

    /// Bypasses counted by reason.
    pub open spec fn bypass_counts(&self) -> Map<Seq<char>, u64> {
        as_map(pairs(self.bypasses@))
    }

    /// Compiler work by outcome.
    pub open spec fn compiler_counts(&self) -> Map<Seq<char>, CompilerStats> {
        as_map(pairs(self.compiler@))
    }

    /// Compiler time by crate name.
    pub open spec fn slow_counts(&self) -> Map<Seq<char>, u64> {
        as_map(pairs(self.slow_compilations@))
    }

    /// How many compilations bypassed for `kind`.
    pub fn bypass_count(&self, kind: &str) -> (r: Option<u64>)
        requires
            self.wf(),
        ensures
            r == (if self.bypass_counts().contains_key(kind@) { Some(self.bypass_counts()[kind@]) } else { None::<u64> }),
    {
        lookup(&self.bypasses, kind)
    }

    /// Compiler work recorded under `outcome`.
    pub fn compiler_stats(&self, outcome: &str) -> (r: Option<CompilerStats>)
        requires
            self.wf(),
        ensures
            r == (if self.compiler_counts().contains_key(outcome@) { Some(self.compiler_counts()[outcome@]) } else { None::<CompilerStats> }),
    {
        lookup(&self.compiler, outcome)
    }

    /// Compiler time recorded for `crate_name`.
    pub fn crate_duration(&self, crate_name: &str) -> (r: Option<u64>)
        requires
            self.wf(),
        ensures
            r == (if self.slow_counts().contains_key(crate_name@) { Some(self.slow_counts()[crate_name@]) } else { None::<u64> }),
    {
        lookup(&self.slow_compilations, crate_name)
    }

    /// Account for the outputs one hit restored: each restore figure adds,
    /// saturating, to its session total.
    pub fn record_restore(&mut self, restore: RestoreStats)
        ensures
            final(self).materialization_duration_ns == sat(old(self).materialization_duration_ns, restore.duration_ns),
            final(self).avoided_compiler_duration_ns == sat(old(self).avoided_compiler_duration_ns, restore.avoided_compiler_duration_ns),
            final(self).restored_output_files == sat(old(self).restored_output_files, restore.output_files),
            final(self).restored_output_bytes == sat(old(self).restored_output_bytes, restore.output_bytes),
            final(self).reflinked_output_files == sat(old(self).reflinked_output_files, restore.reflinked_output_files),
            final(self).reflinked_output_bytes == sat(old(self).reflinked_output_bytes, restore.reflinked_output_bytes),
            final(self).copied_output_files == sat(old(self).copied_output_files, restore.copied_output_files),
            final(self).copied_output_bytes == sat(old(self).copied_output_bytes, restore.copied_output_bytes),
            final(self).reused_output_files == sat(old(self).reused_output_files, restore.reused_output_files),
            final(self).reused_output_bytes == sat(old(self).reused_output_bytes, restore.reused_output_bytes),
            *final(self) == (AgentStats {
                materialization_duration_ns: final(self).materialization_duration_ns,
                avoided_compiler_duration_ns: final(self).avoided_compiler_duration_ns,
                restored_output_files: final(self).restored_output_files,
                restored_output_bytes: final(self).restored_output_bytes,
                reflinked_output_files: final(self).reflinked_output_files,
                reflinked_output_bytes: final(self).reflinked_output_bytes,
                copied_output_files: final(self).copied_output_files,
                copied_output_bytes: final(self).copied_output_bytes,
                reused_output_files: final(self).reused_output_files,
                reused_output_bytes: final(self).reused_output_bytes,
                ..*old(self)
            }),
    {
        self.materialization_duration_ns = self.materialization_duration_ns.saturating_add(restore.duration_ns);
        self.avoided_compiler_duration_ns = self.avoided_compiler_duration_ns.saturating_add(restore.avoided_compiler_duration_ns);
        self.restored_output_files = self.restored_output_files.saturating_add(restore.output_files);
        self.restored_output_bytes = self.restored_output_bytes.saturating_add(restore.output_bytes);
        self.reflinked_output_files = self.reflinked_output_files.saturating_add(restore.reflinked_output_files);
        self.reflinked_output_bytes = self.reflinked_output_bytes.saturating_add(restore.reflinked_output_bytes);
        self.copied_output_files = self.copied_output_files.saturating_add(restore.copied_output_files);
        self.copied_output_bytes = self.copied_output_bytes.saturating_add(restore.copied_output_bytes);
        self.reused_output_files = self.reused_output_files.saturating_add(restore.reused_output_files);
        self.reused_output_bytes = self.reused_output_bytes.saturating_add(restore.reused_output_bytes);
    }

    /// Account for a restored hit: its restore work, and one hit more.
    pub fn record_hit(&mut self, restore: RestoreStats)
        ensures
            final(self).hits == wrap(old(self).hits, 1),
            final(self).restored_output_files == sat(old(self).restored_output_files, restore.output_files),
            final(self).avoided_compiler_duration_ns == sat(old(self).avoided_compiler_duration_ns, restore.avoided_compiler_duration_ns),
            final(self).materialization_duration_ns == sat(old(self).materialization_duration_ns, restore.duration_ns),
            final(self).restored_output_bytes == sat(old(self).restored_output_bytes, restore.output_bytes),
            final(self).reflinked_output_files == sat(old(self).reflinked_output_files, restore.reflinked_output_files),
            final(self).reflinked_output_bytes == sat(old(self).reflinked_output_bytes, restore.reflinked_output_bytes),
            final(self).copied_output_files == sat(old(self).copied_output_files, restore.copied_output_files),
            final(self).copied_output_bytes == sat(old(self).copied_output_bytes, restore.copied_output_bytes),
            final(self).reused_output_files == sat(old(self).reused_output_files, restore.reused_output_files),
            final(self).reused_output_bytes == sat(old(self).reused_output_bytes, restore.reused_output_bytes),
            *final(self) == (AgentStats {
                hits: final(self).hits,
                materialization_duration_ns: final(self).materialization_duration_ns,
                avoided_compiler_duration_ns: final(self).avoided_compiler_duration_ns,
                restored_output_files: final(self).restored_output_files,
                restored_output_bytes: final(self).restored_output_bytes,
                reflinked_output_files: final(self).reflinked_output_files,
                reflinked_output_bytes: final(self).reflinked_output_bytes,
                copied_output_files: final(self).copied_output_files,
                copied_output_bytes: final(self).copied_output_bytes,
                reused_output_files: final(self).reused_output_files,
                reused_output_bytes: final(self).reused_output_bytes,
                ..*old(self)
            }),
    {
        self.record_restore(restore);
        self.hits = self.hits.wrapping_add(1);
    }

    /// Account for a compilation no lookup was possible for.
    pub fn record_unconsulted(&mut self)
        ensures
            final(self).unconsulted == wrap(old(self).unconsulted, 1),
            *final(self) == (AgentStats { unconsulted: final(self).unconsulted, ..*old(self) }),
    {
        self.unconsulted = self.unconsulted.wrapping_add(1);
    }

    /// Count one bypass under `kind`.
    pub fn record_bypass(&mut self, kind: String)
        requires
            old(self).wf(),
        ensures
            final(self).wf(),
            final(self).bypass_counts() == old(self).bypass_counts().insert(kind@, wrap(count_in(old(self).bypass_counts(), kind@), 1)),
            *final(self) == (AgentStats { bypasses: final(self).bypasses, ..*old(self) }),
    {
        let current = match lookup(&self.bypasses, kind.as_str()) {
            Some(count) => count,
            None => 0,
        };
        upsert(&mut self.bypasses, kind, current.wrapping_add(1));
    }

    /// Account for one real compiler invocation: its outcome's count and
    /// time grow, saturating, and unless it was a verification rebuild its
    /// time is charged to a named crate.
    pub fn record_compiler_invocation(&mut self, outcome: &str, crate_name: Option<&str>, duration_ns: u64) -> (r: Result<(), StatsError>)
        requires
            old(self).wf(),
        ensures
            final(self).wf(),
            match r {
                Ok(()) => {
                    &&& known_outcome(outcome@) && crate_name_ok(crate_name)
                    &&& final(self).compiler_counts() == old(self).compiler_counts().insert(outcome@, CompilerStats {
                        invocations: sat(compiler_in(old(self).compiler_counts(), outcome@).invocations, 1),
                        duration_ns: sat(compiler_in(old(self).compiler_counts(), outcome@).duration_ns, duration_ns),
                    })
                    &&& final(self).slow_counts() == match crate_name {
                        Some(name) => if outcome@ != "verification"@ && name@.len() > 0 {
                            old(self).slow_counts().insert(name@, sat(count_in(old(self).slow_counts(), name@), duration_ns))
                        } else {
                            old(self).slow_counts()
                        },
                        None => old(self).slow_counts(),
                    }
                },
                Err(e) => {
                    &&& e == (if !known_outcome(outcome@) { StatsError::InvalidOutcome } else { StatsError::InvalidCrateName })
                    &&& !(known_outcome(outcome@) && crate_name_ok(crate_name))
                    &&& final(self).compiler == old(self).compiler
                    &&& final(self).slow_compilations == old(self).slow_compilations
                },
            },
            *final(self) == (AgentStats { compiler: final(self).compiler, slow_compilations: final(self).slow_compilations, ..*old(self) }),
    {
        let text = chars_of(outcome);
        if !(eq_lit(&text, "miss") || eq_lit(&text, "unconsulted") || eq_lit(&text, "bypass")
            || eq_lit(&text, "verification") || eq_lit(&text, "incremental")) {
            return Err(StatsError::InvalidOutcome);
        }
        validate_crate_name(crate_name)?;
        let current = match lookup(&self.compiler, outcome) {
            Some(stats) => stats,
            None => CompilerStats { invocations: 0, duration_ns: 0 },
        };
        let updated = CompilerStats {
            invocations: current.invocations.saturating_add(1),
            duration_ns: current.duration_ns.saturating_add(duration_ns),
        };
        upsert(&mut self.compiler, String::from_str(outcome), updated);
        if !eq_lit(&text, "verification") {
            if let Some(name) = crate_name {
                if !name.is_empty() {
                    let spent = match lookup(&self.slow_compilations, name) {
                        Some(total) => total,
                        None => 0,
                    };
                    upsert(&mut self.slow_compilations, String::from_str(name), spent.saturating_add(duration_ns));
                }
            }
        }
        Ok(())
    }
}


/// Longest shim diagnostic a session accepts, in bytes.
pub const MAX_WARNING_BYTES: usize = 4096;

/// Most distinct shim diagnostics one session surfaces before going quiet.
pub const MAX_WARNINGS: usize = 128;

/// Why a shim diagnostic was refused.
#[derive(Debug, Clone, Copy, PartialEq, Eq, Structural)]
pub enum WarningError {
    /// The diagnostic is empty, longer than 4096 bytes, or not a single line.
    InvalidWarning,
}

/// Whether a shim diagnostic is acceptable: one non-empty line of at most
/// 4096 bytes without NUL.
pub open spec fn warning_ok(message: Seq<char>) -> bool {
    message.len() > 0 && vstd::utf8::encode_utf8(message).len() <= MAX_WARNING_BYTES
        && !message.contains('\n') && !message.contains('\r') && !message.contains('\0')
}

/// The distinct diagnostics a session has surfaced, each once.
pub struct WarningLedger {
    surfaced: Vec<(String, ())>,
}

impl WarningLedger {
    /// The diagnostics surfaced so far.
    pub closed spec fn messages(&self) -> Set<Seq<char>> {
        as_map(pairs(self.surfaced@)).dom()
    }

    /// How many diagnostics were surfaced.
    pub closed spec fn count(&self) -> nat {
        self.surfaced@.len()
    }

    /// The ledger is a set in order.
    pub closed spec fn wf(&self) -> bool {
        keys_sorted(pairs(self.surfaced@))
    }

    /// A ledger with nothing surfaced.
    pub fn new() -> (r: Self)
        ensures
            r.wf(),
            r.count() == 0,
            r.messages() == Set::<Seq<char>>::empty(),
    {
        let r = WarningLedger { surfaced: Vec::new() };
        assert(as_map(pairs(r.surfaced@)).dom() =~= Set::<Seq<char>>::empty());
        r
    }

    /// Account for a shim diagnostic; `true` means it is new and is to be
    /// surfaced now. A diagnostic already surfaced, or one past the first
    /// [`MAX_WARNINGS`], is accepted quietly.
    pub fn record(&mut self, message: String) -> (r: Result<bool, WarningError>)
        requires
            old(self).wf(),
        ensures
            final(self).wf(),
            match r {
                Err(e) => !warning_ok(message@) && e == WarningError::InvalidWarning
                    && final(self).messages() == old(self).messages() && final(self).count() == old(self).count(),
                Ok(fresh) => warning_ok(message@)
                    && fresh == (!old(self).messages().contains(message@) && old(self).count() < MAX_WARNINGS)
                    && final(self).messages() == (if fresh { old(self).messages().insert(message@) } else { old(self).messages() })
                    && final(self).count() == (if fresh { old(self).count() + 1 } else { old(self).count() }),
            },
    {
        let text = chars_of(message.as_str());
        if text.len() == 0 || message.as_str().as_bytes().len() > MAX_WARNING_BYTES || contains_char(&text, '\n')
            || contains_char(&text, '\r') || contains_char(&text, '\0') {
            return Err(WarningError::InvalidWarning);
        }
        let known = lookup(&self.surfaced, message.as_str()).is_some();
        if known || self.surfaced.len() >= MAX_WARNINGS {
            return Ok(false);
        }
        let ghost before = pairs(self.surfaced@);
        upsert(&mut self.surfaced, message, ());
        proof {
            crate::agent::keyed::lemma_sorted_lists(before);
            crate::agent::keyed::lemma_sorted_lists(pairs(self.surfaced@));
            assert(as_map(pairs(self.surfaced@)).dom() =~= as_map(before).dom().insert(text@));
        }
        Ok(true)
    }
}

/// Marker that makes a warning an action diagnostic; the JSON envelope follows.
pub const ACTION_DIAGNOSTIC_PREFIX: &'static str = "@mbx-action-diagnostic\t";

/// The marker, as text.
pub open spec fn diagnostic_prefix() -> Seq<char> {
    "@mbx-action-diagnostic\t"@
}

/// The envelope a warning carries when it is an action diagnostic: what
/// follows the marker; none for an ordinary warning.
pub fn action_diagnostic_payload(message: &str) -> (r: Option<String>)
    ensures
        r is Some <==> is_prefix(diagnostic_prefix(), message@),
        r matches Some(p) ==> p@ == message@.skip(diagnostic_prefix().len() as int),
{
    let text = chars_of(message);
    proof {
        reveal_strlit("@mbx-action-diagnostic\t");
    }
    match strip_prefix(&text, ACTION_DIAGNOSTIC_PREFIX) {
        Some(rest) => Some(string_of(&rest)),
        None => None,
    }
}

/// Why an action diagnostic was refused.
#[derive(Debug, Clone, Copy, PartialEq, Eq, Structural)]
pub enum DiagnosticError {
    /// The outcome is neither `hit` nor `miss`.
    InvalidOutcome,
    /// The crate name could not have come from a compiler invocation.
    InvalidCrateName,
}

impl DiagnosticError {
    /// The refusal as a sentence.
    pub fn message(&self) -> (r: String)
        ensures
            r@ == match self {
                DiagnosticError::InvalidOutcome => "invalid action diagnostic outcome"@,
                DiagnosticError::InvalidCrateName => "invalid compiler crate name"@,
            },
    {
        let text = match self {
            DiagnosticError::InvalidOutcome => lit("invalid action diagnostic outcome"),
            DiagnosticError::InvalidCrateName => lit("invalid compiler crate name"),
        };
        string_of(&text)
    }
}

/// Judge an action diagnostic's envelope: its outcome must be `hit` or
/// `miss`, then its crate name acceptable.
pub fn validate_action_diagnostic(outcome: &str, crate_name: Option<&str>) -> (r: Result<(), DiagnosticError>)
    ensures
        !(outcome@ == "hit"@ || outcome@ == "miss"@) ==> r == Err::<(), DiagnosticError>(DiagnosticError::InvalidOutcome),
        (outcome@ == "hit"@ || outcome@ == "miss"@) && !crate_name_ok(crate_name)
            ==> r == Err::<(), DiagnosticError>(DiagnosticError::InvalidCrateName),
        (outcome@ == "hit"@ || outcome@ == "miss"@) && crate_name_ok(crate_name) ==> r is Ok,
{
    let text = chars_of(outcome);
    if !(eq_lit(&text, "hit") || eq_lit(&text, "miss")) {
        return Err(DiagnosticError::InvalidOutcome);
    }
    match validate_crate_name(crate_name) {
        Ok(()) => Ok(()),
        Err(_) => Err(DiagnosticError::InvalidCrateName),
    }
}

} // verus!

