//! Per-task session state: the predictions a run loaded, which adapters have
//! started their prefetch wave, and the queues of objects to prefetch.
use vstd::prelude::*;
use crate::agent::digest::{
    CacheDigest, DigestView, digests, contains_digest, same_digest, digest_before, digest_less,
    lemma_digest_order,
};
use crate::agent::protocol::{ActionPrediction, PredictionView, prediction_views, invocations, same_prediction, MAX_TASK_ACTION_PREDICTIONS};
use crate::agent::manifest::ManifestError;

verus! {

/// Whether predictions are strictly ordered by invocation, as the values of
/// a map keyed by invocation are.
pub open spec fn sorted_by_invocation(ps: Seq<PredictionView>) -> bool {
    forall|i: int, j: int| 0 <= i < j < ps.len() ==> digest_less(#[trigger] ps[i].invocation, #[trigger] ps[j].invocation)
}

/// What a task run holds while it is in progress.
#[derive(Debug)]
pub struct TaskActionState {
    /// Manifest text the run was loaded from.
    pub manifest: String,
    /// Whether the stored baseline has been read.
    pub baseline_loaded: bool,
    /// Known predictions, one per invocation, ordered by invocation.
    pub predictions: Vec<ActionPrediction>,
    /// Predictions recorded by this run, one per invocation.
    pub pending_predictions: Vec<ActionPrediction>,
    /// Invocations whose pending prediction differs from the loaded one.
    pub changed_predictions: Vec<CacheDigest>,
    /// Adapters whose prefetch wave has started, each once.
    pub prefetched_adapters: Vec<String>,
    /// Entity tag of the remote manifest the run started from.
    pub remote_etag: Option<String>,
}

/// The adapter names, as plain values.
pub open spec fn adapter_views(names: Seq<String>) -> Seq<Seq<char>> {
    names.map_values(|n: String| n@)
}

impl TaskActionState {
    /// A run with nothing loaded yet.
    pub fn new() -> (r: Self)
        ensures
            r.wf(),
            r.predictions@.len() == 0,
            r.prefetched_adapters@.len() == 0,
    {
        TaskActionState {
            manifest: String::new(),
            baseline_loaded: false,
            predictions: Vec::new(),
            pending_predictions: Vec::new(),
            changed_predictions: Vec::new(),
            prefetched_adapters: Vec::new(),
            remote_etag: None,
        }
    }

    /// Predictions are ordered and unique by invocation, and no adapter is
    /// listed twice.
    pub open spec fn wf(&self) -> bool {
        &&& sorted_by_invocation(prediction_views(self.predictions@))
        &&& sorted_by_invocation(prediction_views(self.pending_predictions@))
        &&& digests(self.changed_predictions@).no_duplicates()
        &&& adapter_views(self.prefetched_adapters@).no_duplicates()
    }

    /// Record `prediction` under its invocation, replacing any earlier one.
    pub fn insert_prediction(&mut self, prediction: ActionPrediction)
        requires
            old(self).wf(),
        ensures
            final(self).wf(),
            final(self).prefetched_adapters@ == old(self).prefetched_adapters@,
            final(self).pending_predictions@ == old(self).pending_predictions@,
            final(self).changed_predictions@ == old(self).changed_predictions@,
            forall|x: PredictionView| prediction_views(final(self).predictions@).contains(x) <==> (x == prediction@
                || (prediction_views(old(self).predictions@).contains(x) && x.invocation != prediction@.invocation)),
    {
        insert_by_invocation(&mut self.predictions, prediction);
    }

    /// Record a prediction a run learned: it joins the known and the pending
    /// predictions under its invocation, and counts as changed unless the run
    /// already knew exactly this prediction. A new invocation beyond the
    /// manifest limit is refused and changes nothing.
    pub fn record_prediction(&mut self, prediction: ActionPrediction) -> (r: Result<(), ManifestError>)
        requires
            old(self).wf(),
        ensures
            final(self).wf(),
            ({
                let ps = prediction_views(old(self).predictions@);
                let known = invocations(ps).contains(prediction@.invocation);
                &&& r is Err <==> (!known && old(self).predictions.len() >= MAX_TASK_ACTION_PREDICTIONS)
                &&& match r {
                    Err(e) => e == ManifestError::TooManyPredictions && final(self).predictions@ == old(self).predictions@
                        && final(self).pending_predictions@ == old(self).pending_predictions@
                        && final(self).changed_predictions@ == old(self).changed_predictions@,
                    Ok(()) => {
                        &&& forall|x: PredictionView| prediction_views(final(self).predictions@).contains(x) <==> (x == prediction@
                            || (ps.contains(x) && x.invocation != prediction@.invocation))
                        &&& forall|x: PredictionView| prediction_views(final(self).pending_predictions@).contains(x) <==> (x == prediction@
                            || (prediction_views(old(self).pending_predictions@).contains(x) && x.invocation != prediction@.invocation))
                        &&& digests(final(self).changed_predictions@).to_set() == if prediction_for(ps, prediction@.invocation) == Some(prediction@) {
                            digests(old(self).changed_predictions@).to_set()
                        } else {
                            digests(old(self).changed_predictions@).to_set().insert(prediction@.invocation)
                        }
                    },
                }
            }),
            final(self).prefetched_adapters@ == old(self).prefetched_adapters@,
            final(self).manifest == old(self).manifest,
            final(self).baseline_loaded == old(self).baseline_loaded,
            final(self).remote_etag == old(self).remote_etag,
    {
        let ghost ps = prediction_views(self.predictions@);
        let mut found: Option<usize> = None;
        let mut i: usize = 0;
        while i < self.predictions.len()
            invariant
                i <= self.predictions.len(),
                ps == prediction_views(self.predictions@),
                found is None ==> forall|k: int| 0 <= k < i ==> ps[k].invocation != prediction@.invocation,
                found is Some ==> found.unwrap() < self.predictions.len()
                    && ps[found.unwrap() as int].invocation == prediction@.invocation,
            decreases self.predictions.len() - i,
        {
            if found.is_none() && same_digest(&self.predictions[i].invocation, &prediction.invocation) {
                found = Some(i);
            }
            i = i + 1;
        }
        let unchanged = match found {
            None => {
                assert(!invocations(ps).contains(prediction@.invocation)) by {
                    if invocations(ps).contains(prediction@.invocation) {
                        let k = choose|k: int| 0 <= k < invocations(ps).len() && invocations(ps)[k] == prediction@.invocation;
                        assert(ps[k].invocation == prediction@.invocation);
                    }
                }
                if self.predictions.len() >= MAX_TASK_ACTION_PREDICTIONS {
                    return Err(ManifestError::TooManyPredictions);
                }
                assert(prediction_for(ps, prediction@.invocation) is None);
                false
            },
            Some(index) => {
                assert(invocations(ps)[index as int] == prediction@.invocation);
                let ghost chosen = choose|q: PredictionView| ps.contains(q) && q.invocation == prediction@.invocation;
                assert(ps.contains(ps[index as int]));
                assert(chosen == ps[index as int]) by {
                    let m = choose|m: int| 0 <= m < ps.len() && ps[m] == chosen;
                    if m != index {
                        lemma_digest_order(ps[m].invocation, ps[index as int].invocation, ps[index as int].invocation);
                        if m < index {
                            assert(digest_less(ps[m].invocation, ps[index as int].invocation));
                        } else {
                            assert(digest_less(ps[index as int].invocation, ps[m].invocation));
                        }
                    }
                }
                same_prediction(&self.predictions[index], &prediction)
            },
        };
        assert(unchanged == (prediction_for(ps, prediction@.invocation) == Some(prediction@)));
        if !unchanged && !contains_digest(self.changed_predictions.as_slice(), &prediction.invocation) {
            let ghost before = digests(self.changed_predictions@);
            self.changed_predictions.push(prediction.invocation.clone());
            assert(digests(self.changed_predictions@) =~= before.push(prediction@.invocation));
            proof {
                assert forall|x: int, y: int| 0 <= x < before.push(prediction@.invocation).len() && 0 <= y < before.push(prediction@.invocation).len() && x != y
                    implies before.push(prediction@.invocation)[x] != before.push(prediction@.invocation)[y] by {
                    if x == before.len() as int {
                        assert(before.contains(before[y]));
                    } else if y == before.len() as int {
                        assert(before.contains(before[x]));
                    }
                }
                assert(before.push(prediction@.invocation).to_set() =~= before.to_set().insert(prediction@.invocation)) by {
                    assert forall|d: DigestView| before.push(prediction@.invocation).contains(d) <==> (before.contains(d) || d == prediction@.invocation) by {
                        if before.contains(d) {
                            let m = choose|m: int| 0 <= m < before.len() && before[m] == d;
                            assert(before.push(prediction@.invocation)[m] == d);
                        }
                        if d == prediction@.invocation {
                            assert(before.push(prediction@.invocation)[before.len() as int] == d);
                        }
                        if before.push(prediction@.invocation).contains(d) && d != prediction@.invocation {
                            let m = choose|m: int| 0 <= m < before.push(prediction@.invocation).len() && before.push(prediction@.invocation)[m] == d;
                            assert(before[m] == d);
                        }
                    }
                }
            }
        } else if !unchanged {
            assert(digests(self.changed_predictions@).to_set() =~= digests(self.changed_predictions@).to_set().insert(prediction@.invocation));
        }
        insert_by_invocation(&mut self.pending_predictions, prediction.clone());
        insert_by_invocation(&mut self.predictions, prediction);
        Ok(())
    }
}

/// Record `prediction` under its invocation in predictions ordered by
/// invocation, replacing any earlier one, as a map keyed by invocation does.
pub fn insert_by_invocation(predictions: &mut Vec<ActionPrediction>, prediction: ActionPrediction)
    requires
        sorted_by_invocation(prediction_views(old(predictions)@)),
    ensures
        sorted_by_invocation(prediction_views(final(predictions)@)),
        forall|x: PredictionView| prediction_views(final(predictions)@).contains(x) <==> (x == prediction@
            || (prediction_views(old(predictions)@).contains(x) && x.invocation != prediction@.invocation)),
{
    let ghost ps = prediction_views(predictions@);
    let ghost key = prediction@.invocation;
    let mut pos: usize = 0;
    while pos < predictions.len() && digest_before(&predictions[pos].invocation, &prediction.invocation)
        invariant
            pos <= predictions.len(),
            ps == prediction_views(predictions@),
            key == prediction@.invocation,
            forall|k: int| 0 <= k < pos ==> digest_less(#[trigger] ps[k].invocation, key),
        decreases predictions.len() - pos,
    {
        pos = pos + 1;
    }
    // Everything from `pos` on orders at or after the new key.
    assert forall|k: int| pos <= k < ps.len() implies ps[k].invocation == key || digest_less(key, #[trigger] ps[k].invocation) by {
        lemma_digest_order(key, ps[pos as int].invocation, ps[k].invocation);
        lemma_digest_order(ps[pos as int].invocation, key, ps[k].invocation);
        if k > pos {
            assert(digest_less(ps[pos as int].invocation, ps[k].invocation));
        }
    }
    if pos < predictions.len() && same_digest(&predictions[pos].invocation, &prediction.invocation) {
        predictions.set(pos, prediction);
        let ghost out = prediction_views(predictions@);
        assert(out == ps.update(pos as int, prediction@));
        assert forall|k: int| 0 <= k < out.len() implies (#[trigger] out[k]).invocation == ps[k].invocation by {
        }
        assert(sorted_by_invocation(out)) by {
            assert forall|i: int, j: int| 0 <= i < j < out.len() implies digest_less(#[trigger] out[i].invocation, #[trigger] out[j].invocation) by {
                assert(out[i].invocation == ps[i].invocation);
                assert(out[j].invocation == ps[j].invocation);
            }
        }
        assert forall|x: PredictionView| out.contains(x) <==> (x == prediction@
            || (ps.contains(x) && x.invocation != key)) by {
            if out.contains(x) {
                let m = choose|m: int| 0 <= m < out.len() && out[m] == x;
                if m != pos {
                    assert(ps[m] == x);
                    assert(ps[m].invocation != key) by {
                        lemma_digest_order(key, key, key);
                        if m < pos {
                            assert(digest_less(ps[m].invocation, ps[pos as int].invocation));
                        } else {
                            assert(digest_less(ps[pos as int].invocation, ps[m].invocation));
                        }
                    }
                }
            }
            if x == prediction@ {
                assert(out[pos as int] == x);
            }
            if ps.contains(x) && x.invocation != key {
                let m = choose|m: int| 0 <= m < ps.len() && ps[m] == x;
                assert(m != pos);
                assert(out[m] == x);
            }
        }
    } else {
        predictions.insert(pos, prediction);
        let ghost out = prediction_views(predictions@);
        assert(out == ps.insert(pos as int, prediction@));
        assert forall|k: int| pos <= k < ps.len() implies digest_less(key, #[trigger] ps[k].invocation) by {
            if k == pos {
            } else {
                lemma_digest_order(ps[pos as int].invocation, key, ps[k].invocation);
                assert(digest_less(ps[pos as int].invocation, ps[k].invocation));
            }
        }
        assert forall|i: int, j: int| 0 <= i < j < out.len() implies digest_less(#[trigger] out[i].invocation, #[trigger] out[j].invocation) by {
            if j < pos {
            } else if i > pos {
                assert(out[i] == ps[i - 1]);
                assert(out[j] == ps[j - 1]);
            } else if i == pos {
                assert(out[j] == ps[j - 1]);
            } else if j == pos {
            } else {
                assert(out[j] == ps[j - 1]);
                lemma_digest_order(ps[i].invocation, key, ps[j - 1].invocation);
            }
        }
        assert forall|x: PredictionView| out.contains(x) <==> (x == prediction@
            || (ps.contains(x) && x.invocation != key)) by {
            if out.contains(x) {
                let m = choose|m: int| 0 <= m < out.len() && out[m] == x;
                if m < pos {
                    assert(ps[m] == x);
                    lemma_digest_order(ps[m].invocation, key, key);
                } else if m > pos {
                    assert(ps[m - 1] == x);
                    lemma_digest_order(key, ps[m - 1].invocation, key);
                }
            }
            if x == prediction@ {
                assert(out[pos as int] == x);
            }
            if ps.contains(x) && x.invocation != key {
                let m = choose|m: int| 0 <= m < ps.len() && ps[m] == x;
                if m < pos {
                    assert(out[m] == x);
                } else {
                    assert(out[m + 1] == x);
                }
            }
        }
    }
}

/// The predictions of `ps` recorded by `adapter`, in order.
pub open spec fn by_adapter(ps: Seq<PredictionView>, adapter: Seq<char>) -> Seq<PredictionView> {
    ps.filter(|c: PredictionView| c.adapter == adapter)
}

/// The prediction for `invocation`, if one is known.
pub open spec fn prediction_for(ps: Seq<PredictionView>, invocation: DigestView) -> Option<PredictionView> {
    if invocations(ps).contains(invocation) {
        Some(choose|p: PredictionView| ps.contains(p) && p.invocation == invocation)
    } else {
        None
    }
}

/// What a run records, a lookup finds: once the known predictions hold
/// `prediction` and, of the others, only those of other invocations (as
/// [`TaskActionState::record_prediction`] leaves them), the prediction for
/// its invocation is exactly it.
pub proof fn lemma_recorded_prediction_is_found(ps: Seq<PredictionView>, before: Seq<PredictionView>, prediction: PredictionView)
    requires
        forall|x: PredictionView| ps.contains(x) <==> (x == prediction || (before.contains(x) && x.invocation != prediction.invocation)),
    ensures
        prediction_for(ps, prediction.invocation) == Some(prediction),
{
    assert(ps.contains(prediction));
    let k = choose|k: int| 0 <= k < ps.len() && ps[k] == prediction;
    assert(invocations(ps)[k] == prediction.invocation);
    assert(invocations(ps).contains(prediction.invocation));
}

impl TaskActionState {
    /// The known prediction for `invocation`, if any.
    pub fn find_prediction(&self, invocation: &CacheDigest) -> (r: Option<ActionPrediction>)
        requires
            self.wf(),
        ensures
            match r {
                Some(p) => prediction_for(prediction_views(self.predictions@), invocation@) == Some(p@),
                None => prediction_for(prediction_views(self.predictions@), invocation@) is None,
            },
    {
        let ghost ps = prediction_views(self.predictions@);
        let mut i: usize = 0;
        while i < self.predictions.len()
            invariant
                i <= self.predictions.len(),
                ps == prediction_views(self.predictions@),
                sorted_by_invocation(ps),
                forall|j: int| 0 <= j < i ==> ps[j].invocation != invocation@,
            decreases self.predictions.len() - i,
        {
            if same_digest(&self.predictions[i].invocation, invocation) {
                let found = self.predictions[i].clone();
                proof {
                    let p = ps[i as int];
                    assert(ps.contains(p) && p.invocation == invocation@);
                    assert(invocations(ps)[i as int] == invocation@);
                    assert(invocations(ps).contains(invocation@));
                    let c = choose|q: PredictionView| ps.contains(q) && q.invocation == invocation@;
                    let m = choose|m: int| 0 <= m < ps.len() && ps[m] == c;
                    if m != i {
                        lemma_digest_order(ps[m].invocation, ps[i as int].invocation, ps[i as int].invocation);
                        if m < i {
                            assert(digest_less(ps[m].invocation, ps[i as int].invocation));
                        } else {
                            assert(digest_less(ps[i as int].invocation, ps[m].invocation));
                        }
                    }
                }
                return Some(found);
            }
            i = i + 1;
        }
        proof {
            if invocations(ps).contains(invocation@) {
                let k = choose|k: int| 0 <= k < invocations(ps).len() && invocations(ps)[k] == invocation@;
                assert(ps[k].invocation == invocation@);
            }
        }
        None
    }
}

/// Match an invocation and, on an adapter's first match, select its prefetch wave.
///
/// The wave is every known prediction of the matched prediction's adapter;
/// each adapter starts one wave per run.
pub fn activate_prediction_adapter(
    state: &mut TaskActionState,
    invocation: &CacheDigest,
) -> (r: (Option<ActionPrediction>, Option<Vec<ActionPrediction>>))
    requires
        old(state).wf(),
    ensures
        final(state).wf(),
        final(state).predictions@ == old(state).predictions@,
        final(state).pending_predictions@ == old(state).pending_predictions@,
        final(state).changed_predictions@ == old(state).changed_predictions@,
        ({
            let ps = prediction_views(old(state).predictions@);
            let adapters = adapter_views(old(state).prefetched_adapters@);
            match prediction_for(ps, invocation@) {
                None => r.0 is None && r.1 is None
                    && final(state).prefetched_adapters@ == old(state).prefetched_adapters@,
                Some(p) => r.0 is Some && r.0.unwrap()@ == p
                    && if adapters.contains(p.adapter) {
                        r.1 is None && final(state).prefetched_adapters@ == old(state).prefetched_adapters@
                    } else {
                        r.1 is Some && prediction_views(r.1.unwrap()@) == by_adapter(ps, p.adapter)
                            && adapter_views(final(state).prefetched_adapters@) == adapters.push(p.adapter)
                    },
            }
        }),
{
    let ghost ps = prediction_views(state.predictions@);
    let mut found: Option<usize> = None;
    let mut i: usize = 0;
    while i < state.predictions.len()
        invariant
            i <= state.predictions.len(),
            ps == prediction_views(state.predictions@),
            found is None ==> forall|k: int| 0 <= k < i ==> ps[k].invocation != invocation@,
            found is Some ==> found.unwrap() < state.predictions.len()
                && ps[found.unwrap() as int].invocation == invocation@,
        decreases state.predictions.len() - i,
    {
        if found.is_none() && same_digest(&state.predictions[i].invocation, &invocation) {
            found = Some(i);
        }
        i = i + 1;
    }
    match found {
        None => {
            assert(!invocations(ps).contains(invocation@)) by {
                if invocations(ps).contains(invocation@) {
                    let k = choose|k: int| 0 <= k < invocations(ps).len() && invocations(ps)[k] == invocation@;
                    assert(ps[k].invocation == invocation@);
                }
            }
            (None, None)
        },
        Some(index) => {
            let prediction = state.predictions[index].clone();
            let ghost p = ps[index as int];
            assert(invocations(ps)[index as int] == invocation@);
            assert(invocations(ps).contains(invocation@));
            let ghost chosen = choose|q: PredictionView| ps.contains(q) && q.invocation == invocation@;
            assert(ps.contains(p));
            assert(chosen == p) by {
                let m = choose|m: int| 0 <= m < ps.len() && ps[m] == chosen;
                if m != index {
                    lemma_digest_order(ps[m].invocation, ps[index as int].invocation, ps[index as int].invocation);
                    if m < index {
                        assert(digest_less(ps[m].invocation, ps[index as int].invocation));
                    } else {
                        assert(digest_less(ps[index as int].invocation, ps[m].invocation));
                    }
                }
            }
            let ghost names = adapter_views(state.prefetched_adapters@);
            let mut seen = false;
            let mut a: usize = 0;
            while a < state.prefetched_adapters.len()
                invariant
                    a <= state.prefetched_adapters.len(),
                    names == adapter_views(state.prefetched_adapters@),
                    seen == exists|k: int| 0 <= k < a && names[k] == prediction.adapter@,
                decreases state.prefetched_adapters.len() - a,
            {
                if state.prefetched_adapters[a] == prediction.adapter {
                    seen = true;
                }
                assert(names[a as int] == state.prefetched_adapters@[a as int]@);
                a = a + 1;
            }
            assert(seen == names.contains(prediction.adapter@));
            if seen {
                return (Some(prediction), None);
            }
            state.prefetched_adapters.push(prediction.adapter.clone());
            assert(adapter_views(state.prefetched_adapters@) == names.push(prediction.adapter@));
            proof {
                assert forall|x: int, y: int| 0 <= x < names.push(p.adapter).len() && 0 <= y < names.push(p.adapter).len() && x != y
                    implies names.push(p.adapter)[x] != names.push(p.adapter)[y] by {
                    if x == names.len() as int {
                        assert(names.contains(names[y]));
                    } else if y == names.len() as int {
                        assert(names.contains(names[x]));
                    }
                }
            }
            let ghost f = |c: PredictionView| c.adapter == p.adapter;
            let mut wave: Vec<ActionPrediction> = Vec::new();
            let mut w: usize = 0;
            while w < state.predictions.len()
                invariant
                    w <= state.predictions.len(),
                    ps == prediction_views(state.predictions@),
                    prediction.adapter@ == p.adapter,
                    f == (|c: PredictionView| c.adapter == p.adapter),
                    prediction_views(wave@) == ps.take(w as int).filter(f),
                decreases state.predictions.len() - w,
            {
                let keep = state.predictions[w].adapter == prediction.adapter;
                let ghost before = prediction_views(wave@);
                assert(ps[w as int] == state.predictions@[w as int]@);
                assert(f(ps[w as int]) == keep);
                if keep {
                    wave.push(state.predictions[w].clone());
                    assert(prediction_views(wave@) == before.push(ps[w as int]));
                } else {
                    assert(prediction_views(wave@) == before);
                }
                assert(ps.take(w + 1).drop_last() == ps.take(w as int));
                assert(ps.take(w + 1).last() == ps[w as int]);
                assert(prediction_views(wave@) == ps.take(w + 1).filter(f)) by {
                    reveal_with_fuel(Seq::<PredictionView>::filter, 1);
                }
                w = w + 1;
            }
            assert(ps.take(state.predictions.len() as int) == ps);
            (Some(prediction), Some(wave))
        },
    }
}

/// Queue `digest` for prefetch unless it is already verified or queued.
pub fn queue_prefetch_digest(verified: &Vec<CacheDigest>, pending: &mut Vec<CacheDigest>, digest: CacheDigest)
    ensures
        digests(final(pending)@) == if digests(verified@).contains(digest@) || digests(old(pending)@).contains(digest@) {
            digests(old(pending)@)
        } else {
            digests(old(pending)@).push(digest@)
        },
{
    if contains_digest(verified.as_slice(), &digest) || contains_digest(pending.as_slice(), &digest) {
        return;
    }
    let ghost before = digests(pending@);
    pending.push(digest);
    assert(digests(pending@) =~= before.push(digest@));
}

/// Queue a directory node for prefetch, keeping at most `limit` nodes seen
/// or queued; `false` means the node would exceed the limit.
///
/// A node already seen or queued is accepted without counting it again.
pub fn queue_prefetch_directory(
    seen: &Vec<CacheDigest>,
    pending: &mut Vec<CacheDigest>,
    digest: CacheDigest,
    limit: usize,
) -> (r: bool)
    ensures
        ({
            let known = digests(seen@).contains(digest@) || digests(old(pending)@).contains(digest@);
            &&& r == (known || seen.len() + old(pending).len() < limit)
            &&& digests(final(pending)@) == if !known && r {
                digests(old(pending)@).push(digest@)
            } else {
                digests(old(pending)@)
            }
        }),
{
    if contains_digest(seen.as_slice(), &digest) || contains_digest(pending.as_slice(), &digest) {
        return true;
    }
    let total = if seen.len() > usize::MAX - pending.len() { usize::MAX } else { seen.len() + pending.len() };
    if total >= limit {
        return false;
    }
    let ghost before = digests(pending@);
    pending.push(digest);
    assert(digests(pending@) =~= before.push(digest@));
    true
}

} // verus!
