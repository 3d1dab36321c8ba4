//! What committing a task run writes: the stored manifest's predictions with
//! the run's own laid over them, and, for the remote copy, without the new
//! predictions whose results never reached the remote cache.
use vstd::prelude::*;
use crate::agent::digest::{CacheDigest, DigestView, digests, contains_digest, same_digest};
use crate::agent::protocol::{ActionPrediction, PredictionView, prediction_views, invocations};
use crate::agent::session::{insert_by_invocation, sorted_by_invocation};
use crate::agent::protocol::{TaskActionManifest, TASK_ACTION_MANIFEST_VERSION};
use crate::agent::manifest::{ManifestError, is_manifest_of, validate_task_identity, validate_task_manifest};
use crate::agent::protocol::is_task_identity_text;

verus! {

/// Whether `x` is the last of `qs` for its invocation: what a map keyed by
/// invocation holds after taking `qs` in order.
pub open spec fn last_for_invocation(qs: Seq<PredictionView>, x: PredictionView) -> bool {
    exists|i: int| 0 <= i < qs.len() && qs[i] == x
        && forall|j: int| i < j < qs.len() ==> (#[trigger] qs[j]).invocation != x.invocation
}

/// The predictions a commit keeps: the run's own, and of the stored ones
/// the last for each invocation the run did not record.
pub open spec fn committed(stored: Seq<PredictionView>, run: Seq<PredictionView>, x: PredictionView) -> bool {
    last_for_invocation(run, x) || (last_for_invocation(stored, x) && !invocations(run).contains(x.invocation))
}

proof fn lemma_last_step(qs: Seq<PredictionView>, q: PredictionView, x: PredictionView)
    ensures
        last_for_invocation(qs.push(q), x) <==> (x == q || (last_for_invocation(qs, x) && x.invocation != q.invocation)),
{
    let ext = qs.push(q);
    if last_for_invocation(ext, x) {
        let i = choose|i: int| 0 <= i < ext.len() && ext[i] == x
            && forall|j: int| i < j < ext.len() ==> (#[trigger] ext[j]).invocation != x.invocation;
        if i < qs.len() {
            assert(ext[qs.len() as int] == q);
            assert(qs[i] == x);
            assert forall|j: int| i < j < qs.len() implies (#[trigger] qs[j]).invocation != x.invocation by {
                assert(ext[j] == qs[j]);
            }
        }
    }
    if x == q {
        assert(ext[qs.len() as int] == q);
    }
    if last_for_invocation(qs, x) && x.invocation != q.invocation {
        let i = choose|i: int| 0 <= i < qs.len() && qs[i] == x
            && forall|j: int| i < j < qs.len() ==> (#[trigger] qs[j]).invocation != x.invocation;
        assert(ext[i] == x);
        assert forall|j: int| i < j < ext.len() implies (#[trigger] ext[j]).invocation != x.invocation by {
            if j < qs.len() {
                assert(ext[j] == qs[j]);
            }
        }
    }
}

proof fn lemma_push_contains(s: Seq<DigestView>, v: DigestView, y: DigestView)
    ensures
        s.push(v).contains(y) <==> (s.contains(y) || y == v),
{
    if s.push(v).contains(y) {
        let j = choose|j: int| 0 <= j < s.push(v).len() && s.push(v)[j] == y;
        if j < s.len() {
            assert(s[j] == y);
        }
    }
    if s.contains(y) {
        let j = choose|j: int| 0 <= j < s.len() && s[j] == y;
        assert(s.push(v)[j] == y);
    }
    if y == v {
        assert(s.push(v)[s.len() as int] == y);
    }
}

/// The manifest a commit stores: the stored predictions (the last for each
/// invocation) with the run's laid over them, one per invocation and ordered
/// by it; and the invocations the run introduced, in the run's order.
pub fn commit_predictions(stored: &Vec<ActionPrediction>, run: &Vec<ActionPrediction>) -> (r: (Vec<ActionPrediction>, Vec<CacheDigest>))
    ensures
        sorted_by_invocation(prediction_views(r.0@)),
        forall|x: PredictionView| #[trigger] prediction_views(r.0@).contains(x)
            <==> committed(prediction_views(stored@), prediction_views(run@), x),
        digests(r.1@) == invocations(prediction_views(run@)).filter(|i: DigestView| !invocations(prediction_views(stored@)).contains(i)),
{
    let ghost sv = prediction_views(stored@);
    let ghost rv = prediction_views(run@);
    let mut merged: Vec<ActionPrediction> = Vec::new();
    let mut i: usize = 0;
    while i < stored.len()
        invariant
            i <= stored.len(),
            sv == prediction_views(stored@),
            sorted_by_invocation(prediction_views(merged@)),
            forall|x: PredictionView| #[trigger] prediction_views(merged@).contains(x) <==> last_for_invocation(sv.take(i as int), x),
        decreases stored.len() - i,
    {
        let ghost before = prediction_views(merged@);
        insert_by_invocation(&mut merged, stored[i].clone());
        proof {
            assert(sv.take(i + 1) =~= sv.take(i as int).push(sv[i as int]));
            assert forall|x: PredictionView| #[trigger] prediction_views(merged@).contains(x) <==> last_for_invocation(sv.take(i + 1), x) by {
                lemma_last_step(sv.take(i as int), sv[i as int], x);
            }
        }
        i = i + 1;
    }
    assert(sv.take(stored.len() as int) =~= sv);
    let mut introduced: Vec<CacheDigest> = Vec::new();
    let ghost f = |d: DigestView| !invocations(sv).contains(d);
    let mut k: usize = 0;
    while k < run.len()
        invariant
            k <= run.len(),
            sv == prediction_views(stored@),
            rv == prediction_views(run@),
            f == (|d: DigestView| !invocations(sv).contains(d)),
            sorted_by_invocation(prediction_views(merged@)),
            forall|x: PredictionView| #[trigger] prediction_views(merged@).contains(x) <==> (last_for_invocation(rv.take(k as int), x)
                || (last_for_invocation(sv, x) && !invocations(rv.take(k as int)).contains(x.invocation))),
            digests(introduced@) == invocations(rv.take(k as int)).filter(f),
        decreases run.len() - k,
    {
        let q = run[k].clone();
        let ghost qv = rv[k as int];
        assert(q@ == qv);
        // Whether the stored manifest knew this invocation.
        let mut known = false;
        let mut m: usize = 0;
        while m < stored.len()
            invariant
                m <= stored.len(),
                sv == prediction_views(stored@),
                q.invocation@ == qv.invocation,
                known == exists|j: int| 0 <= j < m && #[trigger] sv[j].invocation == qv.invocation,
            decreases stored.len() - m,
        {
            assert(sv[m as int].invocation == stored@[m as int].invocation@);
            if same_digest(&stored[m].invocation, &q.invocation) {
                known = true;
            }
            m = m + 1;
        }
        assert(known == invocations(sv).contains(qv.invocation)) by {
            if invocations(sv).contains(qv.invocation) {
                let j = choose|j: int| 0 <= j < invocations(sv).len() && #[trigger] invocations(sv)[j] == qv.invocation;
                assert(sv[j].invocation == qv.invocation);
            }
            if known {
                let j = choose|j: int| 0 <= j < m && #[trigger] sv[j].invocation == qv.invocation;
                assert(invocations(sv)[j] == qv.invocation);
            }
        }
        let ghost before_intro = digests(introduced@);
        if !known {
            introduced.push(q.invocation.clone());
        }
        proof {
            assert(rv.take(k + 1) =~= rv.take(k as int).push(qv));
            assert(invocations(rv.take(k + 1)) =~= invocations(rv.take(k as int)).push(qv.invocation));
            reveal_with_fuel(Seq::<DigestView>::filter, 1);
            assert(invocations(rv.take(k + 1)).filter(f) == if f(qv.invocation) {
                invocations(rv.take(k as int)).filter(f).push(qv.invocation)
            } else {
                invocations(rv.take(k as int)).filter(f)
            }) by {
                assert(invocations(rv.take(k + 1)).drop_last() =~= invocations(rv.take(k as int)));
            }
            if !known {
                assert(digests(introduced@) =~= before_intro.push(qv.invocation));
            }
        }
        let ghost before = prediction_views(merged@);
        let ghost rk = rv.take(k as int);
        let ghost rk1 = rv.take(k + 1);
        assert(rk1 =~= rk.push(qv));
        assert(invocations(rk1) =~= invocations(rk).push(qv.invocation));
        insert_by_invocation(&mut merged, q);
        proof {
            assert forall|x: PredictionView| #[trigger] prediction_views(merged@).contains(x) <==> (last_for_invocation(rk1, x)
                || (last_for_invocation(sv, x) && !invocations(rk1).contains(x.invocation))) by {
                lemma_last_step(rk, qv, x);
                lemma_push_contains(invocations(rk), qv.invocation, x.invocation);
                assert(before.contains(x) <==> (last_for_invocation(rk, x)
                    || (last_for_invocation(sv, x) && !invocations(rk).contains(x.invocation))));
            }
        }
        k = k + 1;
    }
    assert(rv.take(run.len() as int) =~= rv);
    (merged, introduced)
}

/// What the remote copy of a committed manifest omits: a prediction this
/// run introduced whose action did not reach the remote cache. Inherited
/// ones stay, being plausibly still on the server from whoever put them
/// there.
pub open spec fn withheld(p: PredictionView, introduced: Seq<DigestView>, unpublished: Seq<DigestView>) -> bool {
    introduced.contains(p.invocation) && unpublished.contains(p.action)
}

/// The predictions the remote copy of a committed manifest lists, in order.
pub fn publishable_predictions(predictions: &Vec<ActionPrediction>, introduced: &Vec<CacheDigest>, unpublished: &Vec<CacheDigest>) -> (r: Vec<ActionPrediction>)
    ensures
        prediction_views(r@) == prediction_views(predictions@).filter(|p: PredictionView| !withheld(p, digests(introduced@), digests(unpublished@))),
{
    let ghost ps = prediction_views(predictions@);
    let ghost f = |p: PredictionView| !withheld(p, digests(introduced@), digests(unpublished@));
    let mut out: Vec<ActionPrediction> = Vec::new();
    let mut i: usize = 0;
    while i < predictions.len()
        invariant
            i <= predictions.len(),
            ps == prediction_views(predictions@),
            f == (|p: PredictionView| !withheld(p, digests(introduced@), digests(unpublished@))),
            prediction_views(out@) == ps.take(i as int).filter(f),
        decreases predictions.len() - i,
    {
        let p = &predictions[i];
        let hold = contains_digest(introduced, &p.invocation) && contains_digest(unpublished, &p.action);
        let ghost before = prediction_views(out@);
        if !hold {
            out.push(p.clone());
            assert(prediction_views(out@) =~= before.push(ps[i as int]));
        }
        assert(ps.take(i + 1).drop_last() =~= ps.take(i as int));
        assert(ps.take(i + 1).last() == ps[i as int]);
        assert(prediction_views(out@) == ps.take(i + 1).filter(f)) by {
            reveal_with_fuel(Seq::<PredictionView>::filter, 1);
        }
        i = i + 1;
    }
    assert(ps.take(predictions.len() as int) =~= ps);
    out
}

/// What committing a task run does. Either way it carries the run's
/// receipt: exactly the predictions this run completed, not the baseline it
/// started from.
#[derive(Debug)]
pub enum CommitPlan {
    /// Leave the stored manifest as it is: the run predicted nothing new and
    /// no remote cache is written.
    Keep { completed: Vec<ActionPrediction> },
    /// Store this manifest, naming the invocations the run introduced.
    Write { manifest: TaskActionManifest, introduced: Vec<CacheDigest>, completed: Vec<ActionPrediction> },
}

/// The predictions a plan's receipt names.
pub open spec fn receipt_of(plan: CommitPlan) -> Seq<PredictionView> {
    match plan {
        CommitPlan::Keep { completed } => prediction_views(completed@),
        CommitPlan::Write { completed, .. } => prediction_views(completed@),
    }
}

/// Whether `merged` is what a commit of `run` over `stored` keeps, one
/// prediction per invocation, ordered by invocation.
pub open spec fn commit_of(stored: Seq<PredictionView>, run: Seq<PredictionView>, merged: Seq<PredictionView>) -> bool {
    &&& sorted_by_invocation(merged)
    &&& forall|x: PredictionView| #[trigger] merged.contains(x) <==> committed(stored, run, x)
}

/// Whether `r` is the commit of the run predictions `run` over the stored
/// ones `stored` for `task`. A run that changed nothing, where no remote
/// cache is written, keeps the stored manifest. Otherwise `task` must be a
/// task identity, and the manifest to write is `stored` with the run's
/// predictions laid over it, which must be a valid manifest of `task`. The
/// receipt is `run` itself.
pub open spec fn commit_outcome(
    task: Seq<char>,
    stored: Seq<PredictionView>,
    run: Seq<PredictionView>,
    changed: bool,
    remote_writes: bool,
    r: Result<CommitPlan, ManifestError>,
) -> bool {
    if !changed && !remote_writes {
        r matches Ok(plan) && plan is Keep && receipt_of(plan) == run
    } else if !is_task_identity_text(task) {
        r == Err::<CommitPlan, ManifestError>(ManifestError::InvalidTaskIdentity)
    } else {
        match r {
            Ok(CommitPlan::Write { manifest, introduced, completed }) => {
                &&& manifest.version == TASK_ACTION_MANIFEST_VERSION
                &&& manifest.task@ == task
                &&& commit_of(stored, run, prediction_views(manifest.predictions@))
                &&& is_manifest_of(task, manifest.version, manifest.task@, prediction_views(manifest.predictions@))
                &&& digests(introduced@) == invocations(run).filter(|i: DigestView| !invocations(stored).contains(i))
                &&& prediction_views(completed@) == run
            },
            Ok(CommitPlan::Keep { .. }) => false,
            Err(e) => e == ManifestError::InvalidManifest && exists|merged: Seq<PredictionView>|
                commit_of(stored, run, merged) && !is_manifest_of(task, TASK_ACTION_MANIFEST_VERSION, task, merged),
        }
    }
}

/// A copy of predictions.
pub fn copy_predictions(ps: &Vec<ActionPrediction>) -> (r: Vec<ActionPrediction>)
    ensures
        r@ == ps@,
{
    let mut out: Vec<ActionPrediction> = Vec::new();
    let mut i: usize = 0;
    while i < ps.len()
        invariant
            i <= ps.len(),
            out@ == ps@.take(i as int),
        decreases ps.len() - i,
    {
        out.push(ps[i].clone());
        assert(ps@.take(i + 1) == ps@.take(i as int).push(ps@[i as int]));
        i = i + 1;
    }
    assert(ps@.take(ps.len() as int) == ps@);
    out
}

/// Decide a task run's commit, see [`commit_outcome`].
pub fn commit_task_plan(task: &str, stored: &Vec<ActionPrediction>, run: &Vec<ActionPrediction>, changed: bool, remote_writes: bool) -> (r: Result<CommitPlan, ManifestError>)
    ensures
        commit_outcome(task@, prediction_views(stored@), prediction_views(run@), changed, remote_writes, r),
{
    if !changed && !remote_writes {
        return Ok(CommitPlan::Keep { completed: copy_predictions(run) });
    }
    if let Err(e) = validate_task_identity(task) {
        return Err(e);
    }
    let (merged, introduced) = commit_predictions(stored, run);
    let manifest = TaskActionManifest { version: TASK_ACTION_MANIFEST_VERSION, task: task.to_string(), predictions: merged };
    match validate_task_manifest(&manifest, task) {
        Ok(()) => Ok(CommitPlan::Write { manifest, introduced, completed: copy_predictions(run) }),
        Err(e) => {
            assert(commit_of(prediction_views(stored@), prediction_views(run@), prediction_views(manifest.predictions@)));
            Err(e)
        },
    }
}

} // verus!
