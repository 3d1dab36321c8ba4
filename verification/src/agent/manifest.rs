//! Task identities and the bounded, least-recently-refreshed-first rule that
//! keeps a task's prediction manifest.
use vstd::prelude::*;
use crate::agent::digest::{CacheDigest, DigestView, digests, contains_digest, same_digest};
use crate::agent::protocol::{
    ActionPrediction, PredictionView, TaskActionManifest, prediction_views, invocations,
    is_task_identity, is_task_identity_text, is_valid_manifest, same_prediction,
    MAX_TASK_ACTION_PREDICTIONS, TASK_ACTION_MANIFEST_VERSION,
};
use crate::text::lit;
use crate::text::string_of;

verus! {

/// Why a manifest operation was refused.
#[derive(Debug, Clone, Copy, PartialEq, Eq, Structural)]
pub enum ManifestError {
    /// A task identity is not 64 lowercase hexadecimal digits.
    InvalidTaskIdentity,
    /// A manifest belongs to another task, is in another format, is over the
    /// prediction limit, or predicts one invocation twice.
    InvalidManifest,
    /// More predictions must be kept than a manifest may hold.
    TooManyPredictions,
    /// A run was committed whose baseline was never loaded.
    BaselineNotLoaded,
}

impl ManifestError {
    /// The refusal as a sentence.
    pub fn message(&self) -> (r: String)
        ensures
            r@ == match self {
                ManifestError::InvalidTaskIdentity => "invalid task action identity"@,
                ManifestError::InvalidManifest => "invalid task action manifest"@,
                ManifestError::TooManyPredictions => "the predictions to keep exceed the manifest limit"@,
                ManifestError::BaselineNotLoaded => "task action manifest baseline was not loaded"@,
            },
    {
        let text = match self {
            ManifestError::InvalidTaskIdentity => lit("invalid task action identity"),
            ManifestError::InvalidManifest => lit("invalid task action manifest"),
            ManifestError::TooManyPredictions => lit("the predictions to keep exceed the manifest limit"),
            ManifestError::BaselineNotLoaded => lit("task action manifest baseline was not loaded"),
        };
        string_of(&text)
    }
}

/// Refuse anything that is not a task identity.
pub fn validate_task_identity(task: &str) -> (r: Result<(), ManifestError>)
    ensures
        r is Ok <==> is_task_identity_text(task@),
        r is Err ==> r == Err::<(), ManifestError>(ManifestError::InvalidTaskIdentity),
{
    if !is_task_identity(task) {
        return Err(ManifestError::InvalidTaskIdentity);
    }
    Ok(())
}

/// Whether `m` is a valid manifest of `task`.
pub open spec fn is_manifest_of(task: Seq<char>, version: u8, owner: Seq<char>, predictions: Seq<PredictionView>) -> bool {
    owner == task && is_valid_manifest(version, predictions)
}

/// Refuse a manifest that belongs to another task or is not valid.
pub fn validate_task_manifest(manifest: &TaskActionManifest, task: &str) -> (r: Result<(), ManifestError>)
    ensures
        r is Ok <==> is_manifest_of(task@, manifest.version, manifest.task@, prediction_views(manifest.predictions@)),
        r is Err ==> r == Err::<(), ManifestError>(ManifestError::InvalidManifest),
{
    let owner = crate::text::chars_of(manifest.task.as_str());
    let wanted = crate::text::chars_of(task);
    if crate::text::eq_chars(&owner, &wanted) && manifest.validate() {
        Ok(())
    } else {
        Err(ManifestError::InvalidManifest)
    }
}

/// The action digests a manifest recorded, in order, where it is a valid
/// manifest of `task`; none otherwise. This is a prediction index, so the
/// worst a thin answer costs is a cold prefetch.
pub fn recorded_actions(manifest: &TaskActionManifest, task: &str) -> (r: Vec<CacheDigest>)
    ensures
        is_manifest_of(task@, manifest.version, manifest.task@, prediction_views(manifest.predictions@))
            ==> r@.map_values(|d: CacheDigest| d@) == prediction_views(manifest.predictions@).map_values(|p: PredictionView| p.action),
        !is_manifest_of(task@, manifest.version, manifest.task@, prediction_views(manifest.predictions@)) ==> r.len() == 0,
{
    if validate_task_manifest(manifest, task).is_err() {
        return Vec::new();
    }
    let ghost ps = prediction_views(manifest.predictions@);
    let mut out: Vec<CacheDigest> = Vec::new();
    let mut i: usize = 0;
    while i < manifest.predictions.len()
        invariant
            i <= manifest.predictions.len(),
            ps == prediction_views(manifest.predictions@),
            out@.map_values(|d: CacheDigest| d@) == ps.map_values(|p: PredictionView| p.action).take(i as int),
        decreases manifest.predictions.len() - i,
    {
        let ghost before = out@.map_values(|d: CacheDigest| d@);
        out.push(manifest.predictions[i].action.clone());
        assert(out@.map_values(|d: CacheDigest| d@) =~= before.push(ps[i as int].action));
        assert(ps.map_values(|p: PredictionView| p.action).take(i + 1)
            =~= ps.map_values(|p: PredictionView| p.action).take(i as int).push(ps[i as int].action));
        i = i + 1;
    }
    assert(ps.map_values(|p: PredictionView| p.action).take(manifest.predictions.len() as int)
        =~= ps.map_values(|p: PredictionView| p.action));
    out
}

/// The predictions of `ps` whose invocation is not among `keys`, in order.
pub open spec fn without_keys(ps: Seq<PredictionView>, keys: Seq<DigestView>) -> Seq<PredictionView> {
    ps.filter(|p: PredictionView| !keys.contains(p.invocation))
}

/// History with each refreshed invocation moved to the back: the old entries
/// that no update replaces, then the updates in their order.
pub open spec fn carried(history: Seq<PredictionView>, updates: Seq<PredictionView>) -> Seq<PredictionView> {
    without_keys(history, invocations(updates)) + updates
}

/// How far `n` predictions exceed the manifest limit.
pub open spec fn excess_over(n: nat) -> nat {
    if n > MAX_TASK_ACTION_PREDICTIONS { (n - MAX_TASK_ACTION_PREDICTIONS) as nat } else { 0 }
}

/// `q` with its first `excess` unprotected entries retired.
pub open spec fn retire_oldest(q: Seq<PredictionView>, excess: nat, protected: Set<DigestView>) -> Seq<PredictionView>
    decreases q.len(),
{
    if q.len() == 0 {
        q
    } else if excess > 0 && !protected.contains(q[0].invocation) {
        retire_oldest(q.drop_first(), (excess - 1) as nat, protected)
    } else {
        seq![q[0]] + retire_oldest(q.drop_first(), excess, protected)
    }
}

/// The manifest history after refreshing `updates` at the back and retiring
/// the oldest unprotected entries that take it over the limit.
pub open spec fn refreshed(history: Seq<PredictionView>, updates: Seq<PredictionView>, protected: Set<DigestView>) -> Seq<PredictionView> {
    let q = carried(history, updates);
    retire_oldest(q, excess_over(q.len()), protected)
}

/// How many entries of `q` have a protected invocation.
pub open spec fn protected_count(q: Seq<PredictionView>, protected: Set<DigestView>) -> nat
    decreases q.len(),
{
    if q.len() == 0 {
        0
    } else {
        (if protected.contains(q[0].invocation) { 1nat } else { 0nat }) + protected_count(q.drop_first(), protected)
    }
}


proof fn lemma_push_distinct(ks: Seq<DigestView>, k: DigestView)
    requires
        ks.no_duplicates(),
        !ks.contains(k),
    ensures
        ks.push(k).no_duplicates(),
{
    assert forall|i: int, j: int| 0 <= i < ks.push(k).len() && 0 <= j < ks.push(k).len() && i != j
        implies ks.push(k)[i] != ks.push(k)[j] by {
        if i == ks.len() as int {
            assert(ks.contains(ks[j]));
        } else if j == ks.len() as int {
            assert(ks.contains(ks[i]));
        }
    }
}

proof fn lemma_push_contains<A>(s: Seq<A>, a: A, x: A)
    ensures
        s.push(a).contains(x) <==> (s.contains(x) || x == a),
{
    if s.contains(x) {
        let m = choose|m: int| 0 <= m < s.len() && s[m] == x;
        assert(s.push(a)[m] == x);
    }
    if x == a {
        assert(s.push(a)[s.len() as int] == a);
    }
    if s.push(a).contains(x) && x != a {
        let m = choose|m: int| 0 <= m < s.push(a).len() && s.push(a)[m] == x;
        assert(s[m] == x);
    }
}

proof fn lemma_invocations_push(ps: Seq<PredictionView>, p: PredictionView)
    ensures
        invocations(ps.push(p)) == invocations(ps).push(p.invocation),
{
    assert(invocations(ps.push(p)) =~= invocations(ps).push(p.invocation));
}

proof fn lemma_invocations_add(a: Seq<PredictionView>, b: Seq<PredictionView>)
    ensures
        invocations(a + b) == invocations(a) + invocations(b),
{
    assert(invocations(a + b) =~= invocations(a) + invocations(b));
}

/// Filtering keeps invocations distinct.
proof fn lemma_filter_distinct(s: Seq<PredictionView>, f: spec_fn(PredictionView) -> bool)
    requires
        invocations(s).no_duplicates(),
    ensures
        invocations(s.filter(f)).no_duplicates(),
    decreases s.len(),
{
    reveal_with_fuel(Seq::<PredictionView>::filter, 1);
    if s.len() > 0 {
        let rest = s.drop_last();
        assert(invocations(rest) == invocations(s).drop_last());
        lemma_filter_distinct(rest, f);
        if f(s.last()) {
            let kept = rest.filter(f);
            assert(!invocations(kept).contains(s.last().invocation)) by {
                if invocations(kept).contains(s.last().invocation) {
                    let j = choose|j: int| 0 <= j < invocations(kept).len() && invocations(kept)[j] == s.last().invocation;
                    assert(kept.contains(kept[j]));
                    rest.lemma_filter_contains_rev(f, kept[j]);
                    let m = choose|m: int| 0 <= m < rest.len() && rest[m] == kept[j];
                    assert(invocations(s)[m] == invocations(s)[s.len() - 1]);
                }
            }
            lemma_invocations_push(kept, s.last());
            lemma_push_distinct(invocations(kept), s.last().invocation);
        }
    }
}

/// Moving refreshed entries to the back keeps invocations distinct.
pub proof fn lemma_carried_distinct(history: Seq<PredictionView>, updates: Seq<PredictionView>)
    requires
        invocations(history).no_duplicates(),
        invocations(updates).no_duplicates(),
    ensures
        invocations(carried(history, updates)).no_duplicates(),
{
    let keys = invocations(updates);
    let f = |p: PredictionView| !keys.contains(p.invocation);
    let old_part = history.filter(f);
    lemma_filter_distinct(history, f);
    lemma_invocations_add(old_part, updates);
    assert forall|i: int, j: int| 0 <= i < invocations(old_part).len() && 0 <= j < keys.len()
        implies invocations(old_part)[i] != keys[j] by {
        history.lemma_filter_pred(f, i);
    }
    vstd::seq_lib::lemma_no_dup_in_concat(invocations(old_part), keys);
}

proof fn lemma_count_without(q: Seq<PredictionView>, protected: Set<DigestView>, k: DigestView)
    requires
        !invocations(q).contains(k),
    ensures
        protected_count(q, protected) == protected_count(q, protected.remove(k)),
    decreases q.len(),
{
    if q.len() > 0 {
        assert(invocations(q)[0] == q[0].invocation);
        assert(invocations(q.drop_first()) == invocations(q).drop_first());
        lemma_count_without(q.drop_first(), protected, k);
    }
}

/// Distinct invocations cannot protect more entries than there are
/// protected invocations.
pub proof fn lemma_protected_count_bound(q: Seq<PredictionView>, protected: Set<DigestView>)
    requires
        invocations(q).no_duplicates(),
        protected.finite(),
    ensures
        protected_count(q, protected) <= protected.len(),
        protected_count(q, protected) <= q.len(),
    decreases q.len(),
{
    if q.len() > 0 {
        let h = q[0].invocation;
        let rest = q.drop_first();
        assert(invocations(rest) == invocations(q).drop_first());
        assert(invocations(q)[0] == h);
        assert(!invocations(rest).contains(h)) by {
            if invocations(rest).contains(h) {
                let j = choose|j: int| 0 <= j < invocations(rest).len() && invocations(rest)[j] == h;
                assert(invocations(q)[j + 1] == invocations(q)[0]);
            }
        }
        if protected.contains(h) {
            lemma_count_without(rest, protected, h);
            lemma_protected_count_bound(rest, protected.remove(h));
        } else {
            lemma_protected_count_bound(rest, protected);
        }
    }
}

/// How many entries retiring leaves: all but the first `excess` unprotected
/// ones, or all the protected ones where there are fewer.
pub proof fn lemma_retire_len(q: Seq<PredictionView>, excess: nat, protected: Set<DigestView>)
    ensures
        protected_count(q, protected) <= q.len(),
        retire_oldest(q, excess, protected).len() == q.len() - (if excess <= q.len() - protected_count(q, protected) {
            excess as int
        } else {
            q.len() - protected_count(q, protected)
        }),
    decreases q.len(),
{
    if q.len() > 0 {
        if excess > 0 && !protected.contains(q[0].invocation) {
            lemma_retire_len(q.drop_first(), (excess - 1) as nat, protected);
        } else {
            lemma_retire_len(q.drop_first(), excess, protected);
        }
    }
}

/// Retiring keeps every protected entry, adds nothing, and keeps
/// invocations distinct.
pub proof fn lemma_retire_members(q: Seq<PredictionView>, excess: nat, protected: Set<DigestView>)
    ensures
        forall|x: PredictionView| #[trigger] retire_oldest(q, excess, protected).contains(x) ==> q.contains(x),
        forall|i: int| 0 <= i < q.len() && protected.contains(q[i].invocation)
            ==> retire_oldest(q, excess, protected).contains(#[trigger] q[i]),
        invocations(q).no_duplicates() ==> invocations(retire_oldest(q, excess, protected)).no_duplicates(),
    decreases q.len(),
{
    if q.len() > 0 {
        let rest = q.drop_first();
        let e2: nat = if excess > 0 && !protected.contains(q[0].invocation) { (excess - 1) as nat } else { excess };
        lemma_retire_members(rest, e2, protected);
        let tail = retire_oldest(rest, e2, protected);
        assert forall|x: PredictionView| retire_oldest(q, excess, protected).contains(x) implies q.contains(x) by {
            if tail.contains(x) {
                assert(rest.contains(x));
                let j = choose|j: int| 0 <= j < rest.len() && rest[j] == x;
                assert(rest[j] == q[j + 1]);
                assert(q[j + 1] == x);
            } else {
                assert(q[0] == x);
            }
        }
        assert forall|i: int| 0 <= i < q.len() && protected.contains(q[i].invocation)
            implies retire_oldest(q, excess, protected).contains(#[trigger] q[i]) by {
            if i == 0 {
                assert(retire_oldest(q, excess, protected)[0] == q[0]);
            } else {
                assert(rest[i - 1] == q[i]);
                let j = choose|j: int| 0 <= j < tail.len() && tail[j] == rest[i - 1];
                if !(excess > 0 && !protected.contains(q[0].invocation)) {
                    assert(retire_oldest(q, excess, protected)[j + 1] == q[i]);
                }
            }
        }
        if invocations(q).no_duplicates() {
            assert(invocations(rest) == invocations(q).drop_first());
            if !(excess > 0 && !protected.contains(q[0].invocation)) {
                let whole = seq![q[0]] + tail;
                assert(!invocations(tail).contains(q[0].invocation)) by {
                    if invocations(tail).contains(q[0].invocation) {
                        let j = choose|j: int| 0 <= j < invocations(tail).len() && invocations(tail)[j] == q[0].invocation;
                        assert(tail.contains(tail[j]));
                        let m = choose|m: int| 0 <= m < rest.len() && rest[m] == tail[j];
                        assert(invocations(q)[m + 1] == invocations(q)[0]);
                    }
                }
                assert(invocations(whole) =~= seq![q[0].invocation] + invocations(tail));
                assert forall|a: int, b: int| 0 <= a < invocations(whole).len() && 0 <= b < invocations(whole).len() && a != b
                    implies invocations(whole)[a] != invocations(whole)[b] by {
                    if a == 0 {
                        assert(invocations(tail).contains(invocations(whole)[b]));
                    } else if b == 0 {
                        assert(invocations(tail).contains(invocations(whole)[a]));
                    } else {
                        assert(invocations(whole)[a] == invocations(tail)[a - 1]);
                        assert(invocations(whole)[b] == invocations(tail)[b - 1]);
                    }
                }
            }
        }
    }
}

/// A refreshed history with distinct invocations and no more protected
/// invocations than the limit never exceeds the limit and never predicts one
/// invocation twice.
pub proof fn lemma_refreshed_is_bounded(history: Seq<PredictionView>, updates: Seq<PredictionView>, protected: Set<DigestView>)
    requires
        invocations(history).no_duplicates(),
        invocations(updates).no_duplicates(),
        protected.finite(),
        protected.len() <= MAX_TASK_ACTION_PREDICTIONS,
    ensures
        refreshed(history, updates, protected).len() <= MAX_TASK_ACTION_PREDICTIONS,
        invocations(refreshed(history, updates, protected)).no_duplicates(),
{
    let q = carried(history, updates);
    lemma_carried_distinct(history, updates);
    lemma_protected_count_bound(q, protected);
    lemma_retire_len(q, excess_over(q.len()), protected);
    lemma_retire_members(q, excess_over(q.len()), protected);
}

/// Every update survives a refresh whose protected invocations include it,
/// and a refresh keeps nothing that was neither history nor update.
pub proof fn lemma_refreshed_keeps_updates(history: Seq<PredictionView>, updates: Seq<PredictionView>, protected: Set<DigestView>)
    requires
        forall|i: int| 0 <= i < updates.len() ==> protected.contains(#[trigger] updates[i].invocation),
    ensures
        forall|i: int| 0 <= i < updates.len() ==> refreshed(history, updates, protected).contains(#[trigger] updates[i]),
        forall|x: PredictionView| refreshed(history, updates, protected).contains(x) ==> history.contains(x) || updates.contains(x),
{
    let keys = invocations(updates);
    let f = |p: PredictionView| !keys.contains(p.invocation);
    let q = carried(history, updates);
    let old_part = history.filter(f);
    lemma_retire_members(q, excess_over(q.len()), protected);
    assert forall|i: int| 0 <= i < updates.len() implies refreshed(history, updates, protected).contains(#[trigger] updates[i]) by {
        assert(q[old_part.len() + i] == updates[i]);
    }
    assert forall|x: PredictionView| refreshed(history, updates, protected).contains(x) implies history.contains(x) || updates.contains(x) by {
        assert(q == old_part + updates);
        assert(q.contains(x));
        let j = choose|j: int| 0 <= j < q.len() && q[j] == x;
        if j < old_part.len() {
            assert(old_part[j] == x);
            assert(old_part.contains(x));
            history.lemma_filter_contains_rev(f, x);
        } else {
            assert(updates[j - old_part.len()] == x);
        }
    }
}

/// The predictions of `ps` whose invocation is not among `keys`.
fn without_invocations(ps: Vec<ActionPrediction>, keys: &Vec<CacheDigest>) -> (r: Vec<ActionPrediction>)
    ensures
        prediction_views(r@) == without_keys(prediction_views(ps@), digests(keys@)),
{
    let ghost pv = prediction_views(ps@);
    let ghost f = |p: PredictionView| !digests(keys@).contains(p.invocation);
    let mut r: Vec<ActionPrediction> = Vec::new();
    let mut i: usize = 0;
    while i < ps.len()
        invariant
            i <= ps.len(),
            pv == prediction_views(ps@),
            f == (|p: PredictionView| !digests(keys@).contains(p.invocation)),
            prediction_views(r@) == pv.take(i as int).filter(f),
        decreases ps.len() - i,
    {
        assert(pv.take(i + 1).drop_last() == pv.take(i as int));
        let keep = !contains_digest(keys.as_slice(), &ps[i].invocation);
        let ghost before = prediction_views(r@);
        assert(pv.take(i + 1).last() == pv[i as int]);
        assert(pv[i as int] == ps@[i as int]@);
        assert(f(pv[i as int]) == keep);
        if keep {
            r.push(ps[i].clone());
            assert(prediction_views(r@) == before.push(pv[i as int]));
        } else {
            assert(prediction_views(r@) == before);
        }
        assert(pv.take(i + 1).drop_last() == pv.take(i as int));
        assert(prediction_views(r@) == pv.take(i + 1).filter(f)) by {
            reveal_with_fuel(Seq::<PredictionView>::filter, 1);
        }
        i = i + 1;
    }
    assert(pv.take(ps.len() as int) == pv);
    r
}

proof fn lemma_retire_step(q: Seq<PredictionView>, i: int, excess: nat, protected: Set<DigestView>)
    requires
        0 <= i < q.len(),
    ensures
        retire_oldest(q.skip(i), excess, protected) == (if excess > 0 && !protected.contains(q[i].invocation) {
            retire_oldest(q.skip(i + 1), (excess - 1) as nat, protected)
        } else {
            seq![q[i]] + retire_oldest(q.skip(i + 1), excess, protected)
        }),
{
    assert(q.skip(i).drop_first() == q.skip(i + 1));
    assert(q.skip(i)[0] == q[i]);
}

/// Refresh `updates` at the back of the manifest history, then retire the
/// oldest unprotected entries needed to keep the manifest bounded.
///
/// `protected` names the invocations that must survive; more of them than a
/// manifest may hold is refused.
pub fn update_task_predictions_in_order(
    predictions: Vec<ActionPrediction>,
    updates: Vec<ActionPrediction>,
    protected: &Vec<CacheDigest>,
) -> (r: Result<Vec<ActionPrediction>, ManifestError>)
    requires
        digests(protected@).no_duplicates(),
    ensures
        match r {
            Ok(kept) => protected.len() <= MAX_TASK_ACTION_PREDICTIONS
                && prediction_views(kept@) == refreshed(prediction_views(predictions@), prediction_views(updates@), digests(protected@).to_set()),
            Err(e) => protected.len() > MAX_TASK_ACTION_PREDICTIONS && e == ManifestError::TooManyPredictions,
        },
{
    if protected.len() > MAX_TASK_ACTION_PREDICTIONS {
        return Err(ManifestError::TooManyPredictions);
    }
    let ghost history = prediction_views(predictions@);
    let ghost ups = prediction_views(updates@);
    let ghost set = digests(protected@).to_set();
    let mut keys: Vec<CacheDigest> = Vec::new();
    let mut k: usize = 0;
    while k < updates.len()
        invariant
            k <= updates.len(),
            ups == prediction_views(updates@),
            digests(keys@) == invocations(ups.take(k as int)),
        decreases updates.len() - k,
    {
        keys.push(updates[k].invocation.clone());
        assert(invocations(ups.take(k + 1)) == invocations(ups.take(k as int)).push(ups[k as int].invocation));
        k = k + 1;
    }
    assert(ups.take(updates.len() as int) == ups);
    let mut q = without_invocations(predictions, &keys);
    let mut updates = updates;
    q.append(&mut updates);
    let ghost qv = prediction_views(q@);
    assert(qv == carried(history, ups));
    let excess0: usize = if q.len() > MAX_TASK_ACTION_PREDICTIONS { q.len() - MAX_TASK_ACTION_PREDICTIONS } else { 0 };
    let mut excess: usize = excess0;
    let mut kept: Vec<ActionPrediction> = Vec::new();
    let mut i: usize = 0;
    assert(qv.skip(0) == qv);
    assert(prediction_views(kept@) + qv == qv);
    while i < q.len()
        invariant
            i <= q.len(),
            qv == prediction_views(q@),
            set == digests(protected@).to_set(),
            prediction_views(kept@) + retire_oldest(qv.skip(i as int), excess as nat, set)
                == retire_oldest(qv, excess0 as nat, set),
        decreases q.len() - i,
    {
        proof {
            lemma_retire_step(qv, i as int, excess as nat, set);
        }
        if excess > 0 && !contains_digest(protected.as_slice(), &q[i].invocation) {
            excess = excess - 1;
        } else {
            let ghost before = prediction_views(kept@);
            kept.push(q[i].clone());
            assert(prediction_views(kept@) == before.push(qv[i as int]));
            assert(before.push(qv[i as int]) + retire_oldest(qv.skip(i + 1), excess as nat, set)
                == before + (seq![qv[i as int]] + retire_oldest(qv.skip(i + 1), excess as nat, set)));
        }
        i = i + 1;
    }
    assert(qv.skip(q.len() as int).len() == 0);
    assert(prediction_views(kept@) + retire_oldest(qv.skip(q.len() as int), excess as nat, set) == prediction_views(kept@));
    Ok(kept)
}

} // verus!

verus! {

/// Whether every entry of `base` that predicts `p`'s invocation is `p`.
pub open spec fn base_agrees(base: Seq<PredictionView>, p: PredictionView) -> bool {
    forall|b: PredictionView| base.contains(b) && b.invocation == p.invocation ==> b == p
}

/// The update-side entries a merge prefers: the required ones always, the
/// fallbacks only where the base holds no other value for their invocation.
pub open spec fn merge_updates(
    base: Seq<PredictionView>,
    update: Seq<PredictionView>,
    required: Set<DigestView>,
    fallbacks: Set<DigestView>,
) -> Seq<PredictionView> {
    update.filter(|p: PredictionView| required.contains(p.invocation)
        || (fallbacks.contains(p.invocation) && base_agrees(base, p)))
}

/// The invocations a merge must keep: the required ones and every
/// preferred update.
pub open spec fn merge_protected(required: Set<DigestView>, preferred: Seq<PredictionView>) -> Set<DigestView> {
    required + invocations(preferred).to_set()
}

/// The predictions of two merged manifests: update-only history first, then
/// the base, with the preferred updates refreshed at the back and the
/// oldest unprotected history retired to keep the limit.
pub open spec fn merged_predictions(
    base: Seq<PredictionView>,
    update: Seq<PredictionView>,
    required: Set<DigestView>,
    fallbacks: Set<DigestView>,
) -> Seq<PredictionView> {
    let preferred = merge_updates(base, update, required, fallbacks);
    refreshed(carried(update, base), preferred, merge_protected(required, preferred))
}

/// Whether every entry of `base` with `p`'s invocation equals `p`.
fn agrees_with_base(base: &Vec<ActionPrediction>, p: &ActionPrediction) -> (r: bool)
    ensures
        r == base_agrees(prediction_views(base@), p@),
{
    let ghost bv = prediction_views(base@);
    let mut i: usize = 0;
    while i < base.len()
        invariant
            i <= base.len(),
            bv == prediction_views(base@),
            forall|j: int| 0 <= j < i && bv[j].invocation == p@.invocation ==> bv[j] == p@,
        decreases base.len() - i,
    {
        if same_digest(&base[i].invocation, &p.invocation) && !same_prediction(&base[i], p) {
            assert(bv.contains(bv[i as int]));
            return false;
        }
        i = i + 1;
    }
    assert forall|b: PredictionView| bv.contains(b) && b.invocation == p@.invocation implies b == p@ by {
        let j = choose|j: int| 0 <= j < bv.len() && bv[j] == b;
    }
    true
}

/// Merge two manifest snapshots through the same bounded durable-LRU rule.
///
/// `required` values from the update side win over the base. `fallbacks` win
/// only when the base has no newer value for the invocation. Other overlap is
/// inherited from the base, while update-only history remains eligible for
/// pruning before either kind of preferred value.
pub fn merge_task_manifests(
    task: &str,
    base: TaskActionManifest,
    update: TaskActionManifest,
    required: &Vec<CacheDigest>,
    fallbacks: &Vec<CacheDigest>,
) -> (r: Result<TaskActionManifest, ManifestError>)
    requires
        digests(required@).no_duplicates(),
    ensures
        ({
            let bv = prediction_views(base.predictions@);
            let uv = prediction_views(update.predictions@);
            let req = digests(required@).to_set();
            let fb = digests(fallbacks@).to_set();
            let inputs_valid = is_manifest_of(task@, base.version, base.task@, bv)
                && is_manifest_of(task@, update.version, update.task@, uv);
            let protected = merge_protected(req, merge_updates(bv, uv, req, fb));
            &&& r is Ok <==> inputs_valid && protected.len() <= MAX_TASK_ACTION_PREDICTIONS
            &&& match r {
                Ok(m) => m.version == TASK_ACTION_MANIFEST_VERSION && m.task@ == task@
                    && prediction_views(m.predictions@) == merged_predictions(bv, uv, req, fb)
                    && is_manifest_of(task@, m.version, m.task@, prediction_views(m.predictions@)),
                Err(e) => e == (if inputs_valid { ManifestError::TooManyPredictions } else { ManifestError::InvalidManifest }),
            }
        }),
{
    validate_task_manifest(&base, task)?;
    validate_task_manifest(&update, task)?;
    let ghost bv = prediction_views(base.predictions@);
    let ghost uv = prediction_views(update.predictions@);
    let ghost req = digests(required@).to_set();
    let ghost fb = digests(fallbacks@).to_set();
    let ghost f = |p: PredictionView| req.contains(p.invocation) || (fb.contains(p.invocation) && base_agrees(bv, p));
    let mut preferred: Vec<ActionPrediction> = Vec::new();
    let mut i: usize = 0;
    while i < update.predictions.len()
        invariant
            i <= update.predictions.len(),
            bv == prediction_views(base.predictions@),
            uv == prediction_views(update.predictions@),
            req == digests(required@).to_set(),
            fb == digests(fallbacks@).to_set(),
            f == (|p: PredictionView| req.contains(p.invocation) || (fb.contains(p.invocation) && base_agrees(bv, p))),
            prediction_views(preferred@) == uv.take(i as int).filter(f),
        decreases update.predictions.len() - i,
    {
        let p = &update.predictions[i];
        let keep = contains_digest(required.as_slice(), &p.invocation)
            || (contains_digest(fallbacks.as_slice(), &p.invocation) && agrees_with_base(&base.predictions, p));
        let ghost before = prediction_views(preferred@);
        assert(uv[i as int] == p@);
        assert(f(uv[i as int]) == keep);
        if keep {
            preferred.push(p.clone());
            assert(prediction_views(preferred@) == before.push(uv[i as int]));
        } else {
            assert(prediction_views(preferred@) == before);
        }
        assert(uv.take(i + 1).drop_last() == uv.take(i as int));
        assert(uv.take(i + 1).last() == uv[i as int]);
        assert(prediction_views(preferred@) == uv.take(i + 1).filter(f)) by {
            reveal_with_fuel(Seq::<PredictionView>::filter, 1);
        }
        i = i + 1;
    }
    assert(uv.take(update.predictions.len() as int) == uv);
    let ghost pv = prediction_views(preferred@);
    assert(pv == merge_updates(bv, uv, req, fb));
    // The protected invocations, each once: the required ones, then those of
    // the preferred updates.
    let mut protected: Vec<CacheDigest> = Vec::new();
    let mut k: usize = 0;
    while k < required.len()
        invariant
            k <= required.len(),
            digests(required@).no_duplicates(),
            digests(protected@) == digests(required@).take(k as int),
        decreases required.len() - k,
    {
        let ghost before = digests(protected@);
        protected.push(required[k].clone());
        assert(digests(protected@) =~= before.push(required@[k as int]@));
        assert(digests(protected@) =~= digests(required@).take(k + 1));
        k = k + 1;
    }
    assert(digests(required@).take(required.len() as int) == digests(required@));
    let mut j: usize = 0;
    while j < preferred.len()
        invariant
            j <= preferred.len(),
            pv == prediction_views(preferred@),
            digests(protected@).no_duplicates(),
            forall|d: DigestView| digests(protected@).contains(d)
                <==> (digests(required@).contains(d) || invocations(pv.take(j as int)).contains(d)),
        decreases preferred.len() - j,
    {
        let d = &preferred[j].invocation;
        let ghost before = digests(protected@);
        assert(invocations(pv.take(j + 1)) == invocations(pv.take(j as int)).push(pv[j as int].invocation));
        let ghost seen = invocations(pv.take(j as int));
        assert(pv[j as int].invocation == d@);
        assert(forall|x: DigestView| before.contains(x) <==> (digests(required@).contains(x) || seen.contains(x)));
        if !contains_digest(protected.as_slice(), d) {
            protected.push(d.clone());
            assert(digests(protected@) =~= before.push(d@));
            proof {
                lemma_push_distinct(before, d@);
            }
        }
        assert forall|x: DigestView| digests(protected@).contains(x)
            <==> (digests(required@).contains(x) || invocations(pv.take(j + 1)).contains(x)) by {
            lemma_push_contains(seen, d@, x);
            lemma_push_contains(before, d@, x);
        }
        j = j + 1;
    }
    assert(pv.take(preferred.len() as int) == pv);
    let ghost protected_set = merge_protected(req, pv);
    proof {
        assert(digests(protected@).to_set() =~= protected_set) by {
            assert forall|d: DigestView| protected_set.contains(d) implies digests(protected@).contains(d) by {
                if invocations(pv).to_set().contains(d) {
                }
            }
        }
        digests(protected@).unique_seq_to_set();
    }
    let mut base_keys: Vec<CacheDigest> = Vec::new();
    let mut b: usize = 0;
    while b < base.predictions.len()
        invariant
            b <= base.predictions.len(),
            bv == prediction_views(base.predictions@),
            digests(base_keys@) == invocations(bv.take(b as int)),
        decreases base.predictions.len() - b,
    {
        base_keys.push(base.predictions[b].invocation.clone());
        assert(invocations(bv.take(b + 1)) == invocations(bv.take(b as int)).push(bv[b as int].invocation));
        b = b + 1;
    }
    assert(bv.take(base.predictions.len() as int) == bv);
    let TaskActionManifest { predictions: update_predictions, .. } = update;
    let TaskActionManifest { predictions: base_predictions, .. } = base;
    let mut history = without_invocations(update_predictions, &base_keys);
    let mut inherited = base_predictions;
    history.append(&mut inherited);
    assert(prediction_views(history@) == carried(uv, bv));
    let predictions = update_task_predictions_in_order(history, preferred, &protected)?;
    proof {
        lemma_carried_distinct(uv, bv);
        lemma_filter_distinct(uv, f);
        lemma_refreshed_is_bounded(carried(uv, bv), pv, protected_set);
    }
    let manifest = TaskActionManifest {
        version: TASK_ACTION_MANIFEST_VERSION,
        task: String::from_str(task),
        predictions,
    };
    validate_task_manifest(&manifest, task)?;
    Ok(manifest)
}

} // verus!
