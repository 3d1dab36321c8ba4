//! Which predicted actions a session fetches ahead of the build, and in what
//! order.
use vstd::prelude::*;
use crate::agent::digest::{CacheDigest, DigestView, same_digest, digest_before, digest_less, lemma_digest_order};
use crate::agent::protocol::{ActionPrediction, PredictionView, prediction_views};

verus! {

/// Most predicted actions whose outputs are fetched ahead for one task.
pub const MAX_PREFETCH_ACTIONS: usize = 1024;

/// The compiler time a prediction payload records: the unsigned integer
/// under `compiler_duration_ns` of the JSON object the payload holds, if the
/// payload parses and holds one.
pub uninterp spec fn recorded_compiler_duration(payload: Seq<char>) -> Option<u64>;

/// Parses `payload` with `serde_json::from_str` into a `serde_json::Value`
/// and reads `compiler_duration_ns` from it with `Value::get` and
/// `Value::as_u64`; a payload that does not parse has no duration.
#[verifier::external_body]
fn recorded_duration_of(payload: &str) -> (r: Option<u64>)
    ensures
        r == recorded_compiler_duration(payload@),
{
    serde_json::from_str::<serde_json::Value>(payload).ok().and_then(|value| value.get("compiler_duration_ns")?.as_u64())
}

/// How much a prediction is worth fetching ahead: the compiler time a
/// `rustc` or `cc` prediction recorded (none recorded counts as nothing),
/// and the most for every other adapter, whose build-script and task
/// predictions record no compiler time but are few and unlock much.
pub open spec fn priority_rule(adapter: Seq<char>, recorded: Option<u64>) -> u64 {
    if adapter == "rustc"@ || adapter == "cc"@ {
        match recorded {
            Some(duration) => duration,
            None => 0,
        }
    } else {
        u64::MAX
    }
}

/// A prediction's prefetch priority.
pub open spec fn prediction_priority_of(p: PredictionView) -> u64 {
    priority_rule(p.adapter, recorded_compiler_duration(p.payload))
}

/// The priority an adapter and a recorded duration give, see [`priority_rule`].
pub fn priority_for(adapter: &str, recorded: Option<u64>) -> (r: u64)
    ensures
        r == priority_rule(adapter@, recorded),
{
    let name = crate::text::chars_of(adapter);
    if crate::text::eq_lit(&name, "rustc") || crate::text::eq_lit(&name, "cc") {
        match recorded {
            Some(duration) => duration,
            None => 0,
        }
    } else {
        u64::MAX
    }
}

/// A prediction's prefetch priority.
pub fn prediction_priority(prediction: &ActionPrediction) -> (r: u64)
    ensures
        r == prediction_priority_of(prediction@),
{
    let recorded = recorded_duration_of(prediction.payload.as_str());
    priority_for(prediction.adapter.as_str(), recorded)
}

/// The adapter and priority an action is prefetched under.
#[derive(Debug, PartialEq, Eq)]
pub struct PrefetchCandidate {
    /// Adapter whose prediction named the action.
    pub adapter: String,
    /// Priority of that prediction.
    pub priority: u64,
}

/// A candidate action as plain values.
pub ghost struct EntryView {
    pub action: DigestView,
    pub adapter: Seq<char>,
    pub priority: u64,
}

/// Candidate entries as plain values.
pub open spec fn entry_views(es: Seq<(CacheDigest, PrefetchCandidate)>) -> Seq<EntryView> {
    es.map_values(|e: (CacheDigest, PrefetchCandidate)| EntryView { action: e.0@, adapter: e.1.adapter@, priority: e.1.priority })
}

/// For each predicted action, the adapter and priority of its first
/// prediction of highest priority.
pub open spec fn best_candidates(ps: Seq<PredictionView>) -> Map<DigestView, (Seq<char>, u64)>
    decreases ps.len(),
{
    if ps.len() == 0 {
        Map::empty()
    } else {
        let m = best_candidates(ps.drop_last());
        let p = ps.last();
        let priority = prediction_priority_of(p);
        if !m.contains_key(p.action) || priority > m[p.action].1 {
            m.insert(p.action, (p.adapter, priority))
        } else {
            m
        }
    }
}

/// Whether entries are strictly ordered by action, as a map's entries are.
pub open spec fn sorted_by_action(es: Seq<EntryView>) -> bool {
    forall|i: int, j: int| 0 <= i < j < es.len() ==> digest_less(#[trigger] es[i].action, #[trigger] es[j].action)
}

/// Whether `es` lists exactly the entries of `m`.
pub open spec fn lists_map(es: Seq<EntryView>, m: Map<DigestView, (Seq<char>, u64)>) -> bool {
    forall|e: EntryView| es.contains(e) <==> (m.contains_key(e.action) && m[e.action] == (e.adapter, e.priority))
}

/// Whether `a` is fetched before `b`: higher priority first, then by action.
pub open spec fn ranks_before(a: EntryView, b: EntryView) -> bool {
    a.priority > b.priority || (a.priority == b.priority && digest_less(a.action, b.action))
}

/// How many entries of `es` rank before `e`.
pub open spec fn rank_of(es: Seq<EntryView>, e: EntryView) -> nat
    decreases es.len(),
{
    if es.len() == 0 {
        0
    } else {
        rank_of(es.drop_last(), e) + if ranks_before(es.last(), e) { 1nat } else { 0nat }
    }
}

/// The entries among the `MAX_PREFETCH_ACTIONS` best, in their order.
pub open spec fn capped(es: Seq<EntryView>) -> Seq<EntryView> {
    if es.len() <= MAX_PREFETCH_ACTIONS {
        es
    } else {
        es.filter(|e: EntryView| rank_of(es, e) < MAX_PREFETCH_ACTIONS)
    }
}

proof fn lemma_entry_views_push(es: Seq<(CacheDigest, PrefetchCandidate)>, e: (CacheDigest, PrefetchCandidate))
    ensures
        entry_views(es.push(e)) == entry_views(es).push(EntryView { action: e.0@, adapter: e.1.adapter@, priority: e.1.priority }),
{
    assert(entry_views(es.push(e)) =~= entry_views(es).push(EntryView { action: e.0@, adapter: e.1.adapter@, priority: e.1.priority }));
}

/// Fold one prediction into sorted candidate entries.
fn add_candidate(acc: &mut Vec<(CacheDigest, PrefetchCandidate)>, prediction: &ActionPrediction, Ghost(m): Ghost<Map<DigestView, (Seq<char>, u64)>>)
    requires
        sorted_by_action(entry_views(old(acc)@)),
        lists_map(entry_views(old(acc)@), m),
    ensures
        sorted_by_action(entry_views(final(acc)@)),
        lists_map(entry_views(final(acc)@), {
            let priority = prediction_priority_of(prediction@);
            if !m.contains_key(prediction@.action) || priority > m[prediction@.action].1 {
                m.insert(prediction@.action, (prediction@.adapter, priority))
            } else {
                m
            }
        }),
{
    let priority = prediction_priority(prediction);
    let ghost es = entry_views(acc@);
    let ghost key = prediction@.action;
    let ghost fresh = EntryView { action: key, adapter: prediction@.adapter, priority };
    let ghost goal = if !m.contains_key(key) || priority > m[key].1 { m.insert(key, (fresh.adapter, priority)) } else { m };
    let mut pos: usize = 0;
    while pos < acc.len() && digest_before(&acc[pos].0, &prediction.action)
        invariant
            pos <= acc.len(),
            es == entry_views(acc@),
            key == prediction@.action,
            forall|k: int| 0 <= k < pos ==> digest_less(#[trigger] es[k].action, key),
        decreases acc.len() - pos,
    {
        pos = pos + 1;
    }
    assert forall|k: int| pos <= k < es.len() implies es[k].action == key || digest_less(key, #[trigger] es[k].action) by {
        lemma_digest_order(key, es[pos as int].action, es[k].action);
        lemma_digest_order(es[pos as int].action, key, es[k].action);
        if k > pos {
            assert(digest_less(es[pos as int].action, es[k].action));
        }
    }
    // Only entry `pos` can hold `key`.
    assert forall|k: int| 0 <= k < es.len() && k != pos implies (#[trigger] es[k]).action != key by {
        lemma_digest_order(key, key, key);
        if k > pos {
            assert(digest_less(es[pos as int].action, es[k].action));
        }
    }
    if pos < acc.len() && same_digest(&acc[pos].0, &prediction.action) {
        assert(es.contains(es[pos as int]));
        assert(m.contains_key(key) && m[key] == (es[pos as int].adapter, es[pos as int].priority));
        if priority > acc[pos].1.priority {
            let entry = (prediction.action.clone(), PrefetchCandidate { adapter: prediction.adapter.clone(), priority });
            acc.set(pos, entry);
            let ghost out = entry_views(acc@);
            assert(out == es.update(pos as int, fresh));
            assert(sorted_by_action(out)) by {
                assert forall|i: int, j: int| 0 <= i < j < out.len() implies digest_less(#[trigger] out[i].action, #[trigger] out[j].action) by {
                    assert(out[i].action == es[i].action);
                    assert(out[j].action == es[j].action);
                }
            }
            assert forall|e: EntryView| out.contains(e) <==> (goal.contains_key(e.action) && goal[e.action] == (e.adapter, e.priority)) by {
                if out.contains(e) {
                    let k = choose|k: int| 0 <= k < out.len() && out[k] == e;
                    if k != pos {
                        assert(es[k] == e);
                        assert(es.contains(e));
                    }
                }
                if goal.contains_key(e.action) && goal[e.action] == (e.adapter, e.priority) {
                    if e.action == key {
                        assert(out[pos as int] == e);
                    } else {
                        assert(es.contains(e));
                        let k = choose|k: int| 0 <= k < es.len() && es[k] == e;
                        assert(out[k] == e);
                    }
                }
            }
        } else {
            assert(goal == m);
        }
    } else {
        assert(!m.contains_key(key)) by {
            if m.contains_key(key) {
                let e = EntryView { action: key, adapter: m[key].0, priority: m[key].1 };
                assert(es.contains(e));
                let k = choose|k: int| 0 <= k < es.len() && es[k] == e;
            }
        }
        let entry = (prediction.action.clone(), PrefetchCandidate { adapter: prediction.adapter.clone(), priority });
        acc.insert(pos, entry);
        let ghost out = entry_views(acc@);
        assert(out == es.insert(pos as int, fresh));
        assert forall|k: int| pos <= k < es.len() implies digest_less(key, #[trigger] es[k].action) by {
        }
        assert forall|i: int, j: int| 0 <= i < j < out.len() implies digest_less(#[trigger] out[i].action, #[trigger] out[j].action) by {
            if j < pos {
            } else if i > pos {
                assert(out[i] == es[i - 1]);
                assert(out[j] == es[j - 1]);
            } else if i == pos {
                assert(out[j] == es[j - 1]);
            } else if j == pos {
            } else {
                assert(out[j] == es[j - 1]);
                lemma_digest_order(es[i].action, key, es[j - 1].action);
            }
        }
        assert forall|e: EntryView| out.contains(e) <==> (goal.contains_key(e.action) && goal[e.action] == (e.adapter, e.priority)) by {
            if out.contains(e) {
                let k = choose|k: int| 0 <= k < out.len() && out[k] == e;
                if k < pos {
                    assert(es[k] == e);
                    assert(es.contains(e));
                } else if k > pos {
                    assert(es[k - 1] == e);
                    assert(es.contains(e));
                }
            }
            if goal.contains_key(e.action) && goal[e.action] == (e.adapter, e.priority) {
                if e.action == key {
                    assert(out[pos as int] == e);
                } else {
                    assert(es.contains(e));
                    let k = choose|k: int| 0 <= k < es.len() && es[k] == e;
                    if k < pos {
                        assert(out[k] == e);
                    } else {
                        assert(out[k + 1] == e);
                    }
                }
            }
        }
    }
}

/// How many of `es` rank before `e`.
fn rank_in(es: &Vec<(CacheDigest, PrefetchCandidate)>, e: &(CacheDigest, PrefetchCandidate)) -> (r: usize)
    ensures
        r == rank_of(entry_views(es@), EntryView { action: e.0@, adapter: e.1.adapter@, priority: e.1.priority }),
{
    let ghost ev = entry_views(es@);
    let ghost target = EntryView { action: e.0@, adapter: e.1.adapter@, priority: e.1.priority };
    let mut count: usize = 0;
    let mut i: usize = 0;
    while i < es.len()
        invariant
            i <= es.len(),
            ev == entry_views(es@),
            target == (EntryView { action: e.0@, adapter: e.1.adapter@, priority: e.1.priority }),
            count == rank_of(ev.take(i as int), target),
            count <= i,
        decreases es.len() - i,
    {
        assert(ev.take(i + 1).drop_last() == ev.take(i as int));
        assert(ev.take(i + 1).last() == ev[i as int]);
        let other = &es[i];
        let before = other.1.priority > e.1.priority
            || (other.1.priority == e.1.priority && digest_before(&other.0, &e.0));
        if before {
            count = count + 1;
        }
        i = i + 1;
    }
    assert(ev.take(es.len() as int) == ev);
    count
}

/// The predicted actions to fetch ahead, ordered by action: each with the
/// adapter and priority of its first highest-priority prediction, and only
/// the `MAX_PREFETCH_ACTIONS` best where there are more.
pub fn select_prefetch_actions(predictions: &Vec<ActionPrediction>) -> (r: Vec<(CacheDigest, PrefetchCandidate)>)
    ensures
        ({
            let all = best_candidates(prediction_views(predictions@));
            exists|es: Seq<EntryView>| sorted_by_action(es) && lists_map(es, all) && entry_views(r@) == capped(es)
        }),
        r.len() <= MAX_PREFETCH_ACTIONS,
{
    let ghost ps = prediction_views(predictions@);
    let mut acc: Vec<(CacheDigest, PrefetchCandidate)> = Vec::new();
    let mut i: usize = 0;
    while i < predictions.len()
        invariant
            i <= predictions.len(),
            ps == prediction_views(predictions@),
            sorted_by_action(entry_views(acc@)),
            lists_map(entry_views(acc@), best_candidates(ps.take(i as int))),
        decreases predictions.len() - i,
    {
        assert(ps.take(i + 1).drop_last() == ps.take(i as int));
        assert(ps.take(i + 1).last() == ps[i as int]);
        add_candidate(&mut acc, &predictions[i], Ghost(best_candidates(ps.take(i as int))));
        i = i + 1;
    }
    assert(ps.take(predictions.len() as int) == ps);
    let ghost es = entry_views(acc@);
    if acc.len() <= MAX_PREFETCH_ACTIONS {
        return acc;
    }
    let ghost f = |e: EntryView| rank_of(es, e) < MAX_PREFETCH_ACTIONS;
    let mut kept: Vec<(CacheDigest, PrefetchCandidate)> = Vec::new();
    let mut j: usize = 0;
    while j < acc.len()
        invariant
            j <= acc.len(),
            es == entry_views(acc@),
            f == (|e: EntryView| rank_of(es, e) < MAX_PREFETCH_ACTIONS),
            entry_views(kept@) == es.take(j as int).filter(f),
        decreases acc.len() - j,
    {
        let rank = rank_in(&acc, &acc[j]);
        let ghost before = entry_views(kept@);
        assert(es[j as int] == (EntryView { action: acc@[j as int].0@, adapter: acc@[j as int].1.adapter@, priority: acc@[j as int].1.priority }));
        if rank < MAX_PREFETCH_ACTIONS {
            let entry = (acc[j].0.clone(), PrefetchCandidate { adapter: acc[j].1.adapter.clone(), priority: acc[j].1.priority });
            let ghost kb = kept@;
            kept.push(entry);
            proof {
                lemma_entry_views_push(kb, entry);
            }
            assert(entry_views(kept@) == before.push(es[j as int]));
        }
        assert(es.take(j + 1).drop_last() == es.take(j as int));
        assert(es.take(j + 1).last() == es[j as int]);
        assert(entry_views(kept@) == es.take(j + 1).filter(f)) by {
            reveal_with_fuel(Seq::<EntryView>::filter, 1);
        }
        j = j + 1;
    }
    assert(es.take(acc.len() as int) == es);
    proof {
        lemma_selection_is_capped(es);
    }
    assert(entry_views(kept@).len() == kept.len());
    kept
}

/// The fetch order is a strict total order on entries of distinct actions.
pub proof fn lemma_rank_order(a: EntryView, b: EntryView, c: EntryView)
    ensures
        !ranks_before(a, a),
        ranks_before(a, b) ==> !ranks_before(b, a),
        a.action != b.action ==> ranks_before(a, b) || ranks_before(b, a),
        ranks_before(a, b) && ranks_before(b, c) ==> ranks_before(a, c),
{
    lemma_digest_order(a.action, b.action, c.action);
}

proof fn lemma_rank_monotone(es: Seq<EntryView>, a: EntryView, b: EntryView)
    requires
        ranks_before(a, b),
    ensures
        rank_of(es, a) <= rank_of(es, b),
        es.contains(a) ==> rank_of(es, a) < rank_of(es, b),
    decreases es.len(),
{
    if es.len() > 0 {
        let rest = es.drop_last();
        let x = es.last();
        lemma_rank_monotone(rest, a, b);
        lemma_rank_order(x, a, b);
        lemma_rank_order(a, b, a);
        if es.contains(a) && x != a {
            let i = choose|i: int| 0 <= i < es.len() && es[i] == a;
            assert(rest[i] == a);
            assert(rest.contains(a));
        }
    }
}

proof fn lemma_filter_sorted(s: Seq<EntryView>, p: spec_fn(EntryView) -> bool)
    requires
        sorted_by_action(s),
    ensures
        sorted_by_action(s.filter(p)),
        forall|k: int| 0 <= k < s.filter(p).len() ==> s.contains(#[trigger] s.filter(p)[k]),
    decreases s.len(),
{
    reveal_with_fuel(Seq::<EntryView>::filter, 1);
    if s.len() > 0 {
        let rest = s.drop_last();
        assert forall|i: int, j: int| 0 <= i < j < rest.len() implies digest_less(#[trigger] rest[i].action, #[trigger] rest[j].action) by {
            assert(rest[i] == s[i] && rest[j] == s[j]);
        }
        lemma_filter_sorted(rest, p);
        let fr = rest.filter(p);
        assert forall|k: int| 0 <= k < fr.len() implies s.contains(#[trigger] fr[k]) by {
            assert(rest.contains(fr[k]));
            let i = choose|i: int| 0 <= i < rest.len() && rest[i] == fr[k];
            assert(s[i] == fr[k]);
        }
        if p(s.last()) {
            let out = fr.push(s.last());
            assert(s.filter(p) == out);
            assert forall|i: int, j: int| 0 <= i < j < out.len() implies digest_less(#[trigger] out[i].action, #[trigger] out[j].action) by {
                if j == out.len() - 1 {
                    assert(out[i] == fr[i]);
                    assert(rest.contains(fr[i]));
                    let m = choose|m: int| 0 <= m < rest.len() && rest[m] == fr[i];
                    assert(s[m] == fr[i]);
                    assert(digest_less(s[m].action, s[s.len() - 1].action));
                } else {
                    assert(out[i] == fr[i] && out[j] == fr[j]);
                }
            }
            assert forall|k: int| 0 <= k < out.len() implies s.contains(#[trigger] out[k]) by {
                if k == out.len() - 1 {
                    assert(s[s.len() - 1] == out[k]);
                } else {
                    assert(out[k] == fr[k]);
                }
            }
        } else {
            assert(s.filter(p) == fr);
        }
    }
}

/// However many predictions a task has, at most `MAX_PREFETCH_ACTIONS`
/// actions are fetched ahead.
pub proof fn lemma_selection_is_capped(es: Seq<EntryView>)
    requires
        sorted_by_action(es),
    ensures
        capped(es).len() <= MAX_PREFETCH_ACTIONS,
{
    if es.len() > MAX_PREFETCH_ACTIONS {
        let f = |e: EntryView| rank_of(es, e) < MAX_PREFETCH_ACTIONS;
        let fs = es.filter(f);
        assert(capped(es) == fs);
        lemma_filter_sorted(es, f);
        let ranks = fs.map_values(|e: EntryView| rank_of(es, e) as int);
        assert forall|i: int, j: int| 0 <= i < ranks.len() && 0 <= j < ranks.len() && i != j implies ranks[i] != ranks[j] by {
            let (lo, hi) = if i < j { (i, j) } else { (j, i) };
            assert(digest_less(fs[lo].action, fs[hi].action));
            lemma_digest_order(fs[lo].action, fs[hi].action, fs[hi].action);
            lemma_rank_order(fs[lo], fs[hi], fs[hi]);
            assert(es.contains(fs[lo]));
            assert(es.contains(fs[hi]));
            if ranks_before(fs[lo], fs[hi]) {
                lemma_rank_monotone(es, fs[lo], fs[hi]);
            } else {
                lemma_rank_monotone(es, fs[hi], fs[lo]);
            }
        }
        assert(ranks.no_duplicates());
        ranks.unique_seq_to_set();
        vstd::set_lib::lemma_int_range(0, MAX_PREFETCH_ACTIONS as int);
        assert forall|r: int| ranks.to_set().contains(r) implies vstd::set_lib::set_int_range(0, MAX_PREFETCH_ACTIONS as int).contains(r) by {
            let k = choose|k: int| 0 <= k < ranks.len() && ranks[k] == r;
            es.lemma_filter_pred(f, k);
        }
        vstd::set_lib::lemma_len_subset(ranks.to_set(), vstd::set_lib::set_int_range(0, MAX_PREFETCH_ACTIONS as int));
    }
}

/// Of more candidates than are fetched ahead, every one kept ranks before
/// every one dropped: higher priority, or equal priority and a lower action.
pub proof fn lemma_kept_rank_before_dropped(es: Seq<EntryView>, k: EntryView, d: EntryView)
    requires
        sorted_by_action(es),
        es.len() > MAX_PREFETCH_ACTIONS,
        capped(es).contains(k),
        es.contains(d),
        !capped(es).contains(d),
    ensures
        ranks_before(k, d),
{
    let f = |e: EntryView| rank_of(es, e) < MAX_PREFETCH_ACTIONS;
    assert(capped(es) == es.filter(f));
    let a = choose|a: int| 0 <= a < es.filter(f).len() && es.filter(f)[a] == k;
    es.lemma_filter_pred(f, a);
    lemma_filter_sorted(es, f);
    assert(es.contains(k));
    let j = choose|j: int| 0 <= j < es.len() && es[j] == d;
    if f(d) {
        es.lemma_filter_contains(f, j);
    }
    assert(!f(d));
    let i = choose|i: int| 0 <= i < es.len() && es[i] == k;
    assert(k != d);
    assert(i != j);
    if i < j {
        assert(digest_less(es[i].action, es[j].action));
    } else {
        assert(digest_less(es[j].action, es[i].action));
    }
    lemma_digest_order(k.action, d.action, k.action);
    lemma_digest_order(d.action, k.action, d.action);
    lemma_rank_order(k, d, k);
    if ranks_before(d, k) {
        lemma_rank_monotone(es, d, k);
    }
}

/// Whether entries are in fetch order.
pub open spec fn sorted_by_rank(es: Seq<EntryView>) -> bool {
    forall|i: int, j: int| 0 <= i < j < es.len() ==> ranks_before(#[trigger] es[i], #[trigger] es[j])
}

/// An entry reduced to its action and adapter.
pub open spec fn action_and_adapter(e: EntryView) -> (DigestView, Seq<char>) {
    (e.action, e.adapter)
}

/// Action and adapter pairs as plain values.
pub open spec fn pair_views(ps: Seq<(CacheDigest, String)>) -> Seq<(DigestView, Seq<char>)> {
    ps.map_values(|p: (CacheDigest, String)| (p.0@, p.1@))
}

/// The candidate actions with their adapters in fetch order: highest
/// priority first, ties by action.
pub fn ranked_prefetch_actions(actions: &Vec<(CacheDigest, PrefetchCandidate)>) -> (r: Vec<(CacheDigest, String)>)
    requires
        sorted_by_action(entry_views(actions@)),
    ensures
        exists|order: Seq<EntryView>| {
            &&& sorted_by_rank(order)
            &&& order.len() == actions.len()
            &&& forall|e: EntryView| order.contains(e) <==> entry_views(actions@).contains(e)
            &&& pair_views(r@) == order.map_values(|e: EntryView| action_and_adapter(e))
        },
{
    let ghost ev = entry_views(actions@);
    let mut out: Vec<(CacheDigest, PrefetchCandidate)> = Vec::new();
    let mut i: usize = 0;
    while i < actions.len()
        invariant
            i <= actions.len(),
            ev == entry_views(actions@),
            sorted_by_action(ev),
            out.len() == i,
            sorted_by_rank(entry_views(out@)),
            forall|e: EntryView| entry_views(out@).contains(e) <==> ev.take(i as int).contains(e),
        decreases actions.len() - i,
    {
        let ghost os = entry_views(out@);
        let ghost x = ev[i as int];
        assert(forall|y: EntryView| os.contains(y) <==> ev.take(i as int).contains(y));
        let e = &actions[i];
        assert(x == (EntryView { action: e.0@, adapter: e.1.adapter@, priority: e.1.priority }));
        // `x` is new: its action differs from every action placed so far.
        assert forall|k: int| 0 <= k < os.len() implies (#[trigger] os[k]).action != x.action by {
            assert(os.contains(os[k]));
            assert(ev.take(i as int).contains(os[k]));
            let m = choose|m: int| 0 <= m < ev.take(i as int).len() && ev.take(i as int)[m] == os[k];
            assert(digest_less(ev[m].action, ev[i as int].action));
            lemma_digest_order(x.action, x.action, x.action);
        }
        let mut pos: usize = 0;
        while pos < out.len()
            && (out[pos].1.priority > e.1.priority
                || (out[pos].1.priority == e.1.priority && digest_before(&out[pos].0, &e.0)))
            invariant
                pos <= out.len(),
                os == entry_views(out@),
                x == (EntryView { action: e.0@, adapter: e.1.adapter@, priority: e.1.priority }),
                forall|k: int| 0 <= k < pos ==> ranks_before(#[trigger] os[k], x),
            decreases out.len() - pos,
        {
            pos = pos + 1;
        }
        assert forall|k: int| pos <= k < os.len() implies ranks_before(x, #[trigger] os[k]) by {
            lemma_rank_order(os[pos as int], x, os[k]);
            lemma_rank_order(x, os[pos as int], os[k]);
            if k > pos {
                assert(ranks_before(os[pos as int], os[k]));
            }
        }
        let entry = (e.0.clone(), PrefetchCandidate { adapter: e.1.adapter.clone(), priority: e.1.priority });
        let ghost ob = out@;
        out.insert(pos, entry);
        assert(out@ == ob.insert(pos as int, entry));
        let ghost ns = entry_views(out@);
        assert(ns =~= os.insert(pos as int, x));
        assert forall|a: int, b: int| 0 <= a < b < ns.len() implies ranks_before(#[trigger] ns[a], #[trigger] ns[b]) by {
            if b < pos {
            } else if a > pos {
                assert(ns[a] == os[a - 1]);
                assert(ns[b] == os[b - 1]);
            } else if a == pos {
                assert(ns[b] == os[b - 1]);
            } else if b == pos {
            } else {
                assert(ns[b] == os[b - 1]);
                lemma_rank_order(os[a], x, os[b - 1]);
            }
        }
        assert forall|y: EntryView| ns.contains(y) <==> ev.take(i + 1).contains(y) by {
            assert(ev.take(i + 1) == ev.take(i as int).push(x));
            if ns.contains(y) {
                let k = choose|k: int| 0 <= k < ns.len() && ns[k] == y;
                if k < pos {
                    assert(os[k] == y);
                    assert(os.contains(y));
                    let m = choose|m: int| 0 <= m < ev.take(i as int).len() && ev.take(i as int)[m] == y;
                    assert(ev.take(i + 1)[m] == y);
                } else if k > pos {
                    assert(os[k - 1] == y);
                    assert(os.contains(y));
                    let m = choose|m: int| 0 <= m < ev.take(i as int).len() && ev.take(i as int)[m] == y;
                    assert(ev.take(i + 1)[m] == y);
                } else {
                    assert(ev.take(i + 1)[i as int] == y);
                }
            }
            let grown = ev.take(i + 1);
            if grown.contains(y) {
                let k = choose|k: int| 0 <= k < grown.len() && grown[k] == y;
                if k == i {
                    assert(ns[pos as int] == y);
                } else {
                    assert(ev.take(i as int)[k] == y);
                    assert(ev.take(i as int).contains(y));
                    assert(os.contains(y));
                    let m = choose|m: int| 0 <= m < os.len() && os[m] == y;
                    if m < pos {
                        assert(ns[m] == y);
                    } else {
                        assert(ns[m + 1] == y);
                    }
                }
            }
        }
        i = i + 1;
    }
    assert(ev.take(actions.len() as int) == ev);
    let ghost order = entry_views(out@);
    let mut r: Vec<(CacheDigest, String)> = Vec::new();
    let mut k: usize = 0;
    while k < out.len()
        invariant
            k <= out.len(),
            order == entry_views(out@),
            pair_views(r@) == order.take(k as int).map_values(|e: EntryView| action_and_adapter(e)),
        decreases out.len() - k,
    {
        let pair = (out[k].0.clone(), out[k].1.adapter.clone());
        let ghost rb = r@;
        r.push(pair);
        assert(pair_views(r@) =~= pair_views(rb).push((pair.0@, pair.1@)));
        assert(order.take(k + 1).map_values(|e: EntryView| action_and_adapter(e))
            =~= order.take(k as int).map_values(|e: EntryView| action_and_adapter(e)).push(action_and_adapter(order[k as int])));
        k = k + 1;
    }
    assert(order.take(out.len() as int) == order);
    r
}

} // verus!
