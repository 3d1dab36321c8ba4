//! Beginning a task run: the run's baseline from the task's manifest, the
//! run's identity, and the table of runs in progress.
use vstd::prelude::*;
use crate::agent::digest::{blake3_hex, CacheDigest};
use crate::agent::protocol::{ActionPrediction, PredictionView, TaskActionManifest, prediction_views};
use crate::agent::manifest::{ManifestError, is_manifest_of, validate_task_identity, validate_task_manifest};
use crate::agent::protocol::is_task_identity_text;
use crate::agent::commit::{commit_predictions, commit_task_plan, commit_outcome, committed, last_for_invocation, CommitPlan};
use crate::agent::keyed::{as_map, pairs, keys_sorted, upsert, remove_key};
use crate::agent::stats::AgentStats;
use crate::agent::session::{TaskActionState, sorted_by_invocation};
use crate::decimal::{decimal, decimal_chars};
use crate::text::{chars_of, string_of};
use vstd::utf8::encode_utf8;

verus! {

/// The text a generated run identity hashes: the task, the process and the
/// session's run counter, separated by NUL characters.
pub open spec fn run_seed(task: Seq<char>, process: u32, sequence: u64) -> Seq<char> {
    task + seq!['\0'] + decimal(process as nat) + seq!['\0'] + decimal(sequence as nat)
}

/// A generated run identity: the BLAKE3 hash of [`run_seed`].
pub open spec fn run_identity_of(task: Seq<char>, process: u32, sequence: u64) -> Seq<char> {
    blake3_hex(encode_utf8(run_seed(task, process, sequence)))
}

/// Generate the identity of a run of `task`, the `sequence`-th run begun by
/// process `process`.
pub fn run_identity(task: &str, process: u32, sequence: u64) -> (r: String)
    ensures
        r@ == run_identity_of(task@, process, sequence),
{
    let mut text: Vec<char> = chars_of(task);
    text.push('\0');
    let p = decimal_chars(process as u64);
    let mut i: usize = 0;
    let ghost start = text@;
    while i < p.len()
        invariant
            i <= p.len(),
            text@ == start + p@.take(i as int),
        decreases p.len() - i,
    {
        text.push(p[i]);
        assert(p@.take(i + 1) == p@.take(i as int).push(p@[i as int]));
        i = i + 1;
    }
    assert(p@.take(p.len() as int) == p@);
    text.push('\0');
    let s = decimal_chars(sequence);
    let mut j: usize = 0;
    let ghost middle = text@;
    while j < s.len()
        invariant
            j <= s.len(),
            text@ == middle + s@.take(j as int),
        decreases s.len() - j,
    {
        text.push(s[j]);
        assert(s@.take(j + 1) == s@.take(j as int).push(s@[j as int]));
        j = j + 1;
    }
    assert(s@.take(s.len() as int) == s@);
    assert(text@ == run_seed(task@, process, sequence));
    let seed = string_of(&text);
    let bytes = seed.as_str().as_bytes();
    CacheDigest::blake3(bytes).hash
}

/// Whether `state` is the baseline of a new run of `task` loaded from
/// `stored` (the task's manifest's predictions, or none) with the remote
/// manifest's entity tag `etag`.
pub open spec fn is_baseline(state: TaskActionState, task: Seq<char>, stored: Seq<PredictionView>, etag: Option<Seq<char>>) -> bool {
    &&& state.wf()
    &&& state.manifest@ == task
    &&& state.baseline_loaded
    &&& forall|x: PredictionView| #[trigger] prediction_views(state.predictions@).contains(x) <==> last_for_invocation(stored, x)
    &&& state.pending_predictions@.len() == 0
    &&& state.changed_predictions@.len() == 0
    &&& state.prefetched_adapters@.len() == 0
    &&& match state.remote_etag {
        Some(t) => etag == Some(t@),
        None => etag is None,
    }
}

/// The predictions a manifest holds, or none.
pub open spec fn stored_of(manifest: Option<TaskActionManifest>) -> Seq<PredictionView> {
    match manifest {
        Some(m) => prediction_views(m.predictions@),
        None => Seq::empty(),
    }
}

/// Whether a task may begin with the manifest it has: the task is a task
/// identity and its manifest, if it has one, is a valid manifest of it.
pub open spec fn baseline_refusal(task: Seq<char>, manifest: Option<TaskActionManifest>) -> Option<ManifestError> {
    if !is_task_identity_text(task) {
        Some(ManifestError::InvalidTaskIdentity)
    } else {
        match manifest {
            Some(m) => if is_manifest_of(task, m.version, m.task@, prediction_views(m.predictions@)) {
                None
            } else {
                Some(ManifestError::InvalidManifest)
            },
            None => None,
        }
    }
}

/// The baseline of a new run of `task`, from the task's manifest where it
/// has one; refused where the task is not a task identity or the manifest
/// is not a valid manifest of it.
pub fn baseline_state(task: &str, manifest: Option<TaskActionManifest>, remote_etag: Option<String>) -> (r: Result<TaskActionState, ManifestError>)
    ensures
        match baseline_refusal(task@, manifest) {
            Some(e) => r == Err::<TaskActionState, ManifestError>(e),
            None => r matches Ok(state) && is_baseline(state, task@, stored_of(manifest),
                match remote_etag { Some(t) => Some(t@), None => None }),
        },
{
    validate_task_identity(task)?;
    let ghost stored = stored_of(manifest);
    let predictions = match manifest {
        Some(m) => {
            validate_task_manifest(&m, task)?;
            let none: Vec<ActionPrediction> = Vec::new();
            let (merged, _) = commit_predictions(&m.predictions, &none);
            assert forall|x: PredictionView| #[trigger] prediction_views(merged@).contains(x) <==> last_for_invocation(stored, x) by {
                assert(committed(stored, prediction_views(none@), x) <==> last_for_invocation(stored, x)) by {
                    assert(prediction_views(none@).len() == 0);
                    assert(crate::agent::protocol::invocations(prediction_views(none@)).len() == 0);
                }
            }
            merged
        },
        None => {
            let empty: Vec<ActionPrediction> = Vec::new();
            assert(prediction_views(empty@) =~= Seq::<PredictionView>::empty());
            empty
        },
    };
    let state = TaskActionState {
        manifest: task.to_string(),
        baseline_loaded: true,
        predictions,
        pending_predictions: Vec::new(),
        changed_predictions: Vec::new(),
        prefetched_adapters: Vec::new(),
        remote_etag,
    };
    assert(prediction_views(state.pending_predictions@) =~= Seq::<PredictionView>::empty());
    assert(crate::agent::digest::digests(state.changed_predictions@) =~= Seq::<crate::agent::digest::DigestView>::empty());
    assert(crate::agent::session::adapter_views(state.prefetched_adapters@) =~= Seq::<Seq<char>>::empty());
    Ok(state)
}

/// The task runs in progress, each under its run identity.
pub struct TaskRuns {
    runs: Vec<(String, TaskActionState)>,
}

impl TaskRuns {
    /// The runs in progress, by run identity.
    pub closed spec fn spec_runs(&self) -> Map<Seq<char>, TaskActionState> {
        as_map(pairs(self.runs@))
    }

    /// The runs are held in run-identity order, each once, and each run's
    /// state is well formed.
    pub closed spec fn wf(&self) -> bool {
        &&& keys_sorted(pairs(self.runs@))
        &&& forall|k: Seq<char>| #[trigger] as_map(pairs(self.runs@)).contains_key(k) ==> as_map(pairs(self.runs@))[k].wf()
    }

    /// No run in progress.
    pub fn new() -> (r: Self)
        ensures
            r.wf(),
            r.spec_runs() == Map::<Seq<char>, TaskActionState>::empty(),
    {
        let r = TaskRuns { runs: Vec::new() };
        assert(pairs(r.runs@) =~= Seq::<(Seq<char>, TaskActionState)>::empty());
        assert(r.spec_runs() =~= Map::<Seq<char>, TaskActionState>::empty());
        r
    }

    /// Put `state` under `run`, in place of any run of that identity.
    pub fn put(&mut self, run: String, state: TaskActionState)
        requires
            old(self).wf(),
            state.wf(),
        ensures
            final(self).wf(),
            final(self).spec_runs() == old(self).spec_runs().insert(run@, state),
    {
        upsert(&mut self.runs, run, state);
    }

    /// Record a prediction under the run `run`: into its state where it is
    /// in progress, else into a new state whose baseline was never loaded
    /// (which a commit then refuses). See `TaskActionState::record_prediction`
    /// for what the run's state records.
    pub fn record_prediction(&mut self, run: &str, prediction: ActionPrediction) -> (r: Result<(), ManifestError>)
        requires
            old(self).wf(),
        ensures
            final(self).wf(),
            !is_task_identity_text(run@) ==> r == Err::<(), ManifestError>(ManifestError::InvalidTaskIdentity)
                && final(self).spec_runs() == old(self).spec_runs(),
            is_task_identity_text(run@) ==> {
                let after = final(self).spec_runs()[run@];
                &&& final(self).spec_runs() == old(self).spec_runs().insert(run@, after)
                &&& after.wf()
                &&& if old(self).spec_runs().contains_key(run@) {
                    after.baseline_loaded == old(self).spec_runs()[run@].baseline_loaded
                        && after.manifest == old(self).spec_runs()[run@].manifest
                } else {
                    !after.baseline_loaded
                }
                &&& r is Ok ==> prediction_views(after.pending_predictions@).contains(prediction@)
                &&& r is Err ==> r == Err::<(), ManifestError>(ManifestError::TooManyPredictions)
            },
    {
        validate_task_identity(run)?;
        let mut state = match self.take(run) {
            Some(state) => state,
            None => {
                let fresh = TaskActionState {
                    manifest: String::new(),
                    baseline_loaded: false,
                    predictions: Vec::new(),
                    pending_predictions: Vec::new(),
                    changed_predictions: Vec::new(),
                    prefetched_adapters: Vec::new(),
                    remote_etag: None,
                };
                assert(prediction_views(fresh.predictions@) =~= Seq::<PredictionView>::empty());
                assert(prediction_views(fresh.pending_predictions@) =~= Seq::<PredictionView>::empty());
                assert(crate::agent::digest::digests(fresh.changed_predictions@) =~= Seq::<crate::agent::digest::DigestView>::empty());
                assert(crate::agent::session::adapter_views(fresh.prefetched_adapters@) =~= Seq::<Seq<char>>::empty());
                fresh
            },
        };
        let ghost before = self.spec_runs();
        let result = state.record_prediction(prediction);
        let ghost after = state;
        self.put(run.to_string(), state);
        assert(self.spec_runs() =~= old(self).spec_runs().insert(run@, after));
        result
    }

    /// Take the run of this identity out, if there is one.
    pub fn take(&mut self, run: &str) -> (r: Option<TaskActionState>)
        requires
            old(self).wf(),
        ensures
            final(self).wf(),
            final(self).spec_runs() == old(self).spec_runs().remove(run@),
            match r {
                Some(state) => old(self).spec_runs().contains_key(run@) && old(self).spec_runs()[run@] == state && state.wf(),
                None => !old(self).spec_runs().contains_key(run@),
            },
    {
        remove_key(&mut self.runs, run)
    }
}

/// Begin a run of `task`: its baseline comes from the task's manifest, if
/// any, and the remote manifest's entity tag; its identity is `run` where
/// the caller names one, else generated from the process and the session's
/// run counter. The session's predictions-loaded figure becomes the largest
/// baseline begun so far. A task that is not a task identity, or a manifest
/// that is not a valid manifest of the task, is refused and no run begins.
pub fn begin_task_step(
    runs: &mut TaskRuns,
    stats: &mut AgentStats,
    task: &str,
    manifest: Option<TaskActionManifest>,
    remote_etag: Option<String>,
    run: Option<String>,
    process: u32,
    sequence: u64,
) -> (r: Result<String, ManifestError>)
    requires
        old(runs).wf(),
    ensures
        final(runs).wf(),
        match baseline_refusal(task@, manifest) {
            Some(e) => r == Err::<String, ManifestError>(e) && final(runs).spec_runs() == old(runs).spec_runs()
                && *final(stats) == *old(stats),
            None => r matches Ok(id) && {
                let loaded = final(runs).spec_runs()[id@].predictions@.len();
                &&& id@ == match run { Some(given) => given@, None => run_identity_of(task@, process, sequence) }
                &&& final(runs).spec_runs() == old(runs).spec_runs().insert(id@, final(runs).spec_runs()[id@])
                &&& is_baseline(final(runs).spec_runs()[id@], task@, stored_of(manifest),
                    match remote_etag { Some(t) => Some(t@), None => None })
                &&& final(stats).predictions_loaded == (if loaded > old(stats).predictions_loaded { loaded as u64 } else { old(stats).predictions_loaded })
                &&& *final(stats) == (AgentStats { predictions_loaded: final(stats).predictions_loaded, ..*old(stats) })
            },
        },
{
    let state = baseline_state(task, manifest, remote_etag)?;
    let id = match run {
        Some(given) => given,
        None => run_identity(task, process, sequence),
    };
    let loaded = state.predictions.len();
    if loaded as u64 > stats.predictions_loaded {
        stats.predictions_loaded = loaded as u64;
    }
    runs.put(id.clone(), state);
    Ok(id)
}

/// Commit the run `run`, given the predictions the stored manifest of its
/// task holds now: see [`commit_outcome`]. A run identity that is not one,
/// and a run that is not in progress or whose baseline was never loaded,
/// are refused and nothing changes. A commit that is planned ends the run;
/// a refused plan leaves it in progress.
pub fn commit_task_step(runs: &mut TaskRuns, run: &str, stored: &Vec<ActionPrediction>, remote_writes: bool) -> (r: Result<CommitPlan, ManifestError>)
    requires
        old(runs).wf(),
    ensures
        final(runs).wf(),
        !is_task_identity_text(run@) ==> r == Err::<CommitPlan, ManifestError>(ManifestError::InvalidTaskIdentity)
            && final(runs).spec_runs() == old(runs).spec_runs(),
        is_task_identity_text(run@) && !(old(runs).spec_runs().contains_key(run@) && old(runs).spec_runs()[run@].baseline_loaded)
            ==> r == Err::<CommitPlan, ManifestError>(ManifestError::BaselineNotLoaded) && final(runs).spec_runs() == old(runs).spec_runs(),
        is_task_identity_text(run@) && old(runs).spec_runs().contains_key(run@) && old(runs).spec_runs()[run@].baseline_loaded ==> {
            let state = old(runs).spec_runs()[run@];
            &&& commit_outcome(state.manifest@, prediction_views(stored@), prediction_views(state.pending_predictions@),
                state.changed_predictions@.len() > 0, remote_writes, r)
            &&& r is Ok ==> final(runs).spec_runs() == old(runs).spec_runs().remove(run@)
            &&& r is Err ==> final(runs).spec_runs() == old(runs).spec_runs()
        },
{
    validate_task_identity(run)?;
    let ghost before = runs.spec_runs();
    let state = match runs.take(run) {
        None => {
            assert(runs.spec_runs() =~= before);
            return Err(ManifestError::BaselineNotLoaded);
        },
        Some(state) => state,
    };
    if !state.baseline_loaded {
        let ghost st = state;
        runs.put(run.to_string(), state);
        assert(runs.spec_runs() =~= before);
        return Err(ManifestError::BaselineNotLoaded);
    }
    let changed = state.changed_predictions.len() > 0;
    let plan = commit_task_plan(state.manifest.as_str(), stored, &state.pending_predictions, changed, remote_writes);
    if plan.is_err() {
        runs.put(run.to_string(), state);
        assert(runs.spec_runs() =~= before);
    }
    plan
}

} // verus!
