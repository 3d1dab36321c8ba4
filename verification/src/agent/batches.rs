//! How predicted actions are looked up in batches: those not already staged,
//! in fetch order, cut into batches no larger than the remote allows.
use vstd::prelude::*;
use crate::agent::digest::{CacheDigest, DigestView};
use crate::agent::prefetch::{pair_views, PrefetchCandidate, EntryView, entry_views};
use crate::agent::digest::same_digest;

verus! {

/// The actions still to look up: those of `ranked` not already staged, in
/// their order.
pub open spec fn unstaged(ranked: Seq<(DigestView, Seq<char>)>, staged: Seq<bool>) -> Seq<(DigestView, Seq<char>)>
    decreases ranked.len(),
{
    if ranked.len() == 0 || staged.len() == 0 {
        Seq::empty()
    } else {
        let rest = unstaged(ranked.drop_last(), staged.drop_last());
        if staged.last() { rest } else { rest.push(ranked.last()) }
    }
}

/// Batches as plain values.
pub open spec fn batch_views(bs: Seq<Vec<(CacheDigest, String)>>) -> Seq<Seq<(DigestView, Seq<char>)>> {
    bs.map_values(|b: Vec<(CacheDigest, String)>| pair_views(b@))
}

/// Whether every batch holds at least one action and at most `limit`, and
/// every batch but the last exactly `limit`.
pub open spec fn cut_by(bs: Seq<Seq<(DigestView, Seq<char>)>>, limit: int) -> bool {
    forall|k: int| 0 <= k < bs.len() ==> {
        &&& 0 < (#[trigger] bs[k]).len() <= limit
        &&& k < bs.len() - 1 ==> bs[k].len() == limit
    }
}

fn copy_pair(p: &(CacheDigest, String)) -> (r: (CacheDigest, String))
    ensures
        r.0@ == p.0@,
        r.1@ == p.1@,
{
    (p.0.clone(), p.1.clone())
}

/// The actions of `ranked` (in fetch order) that are not yet staged, where
/// `staged` says for each whether its result is already local or already
/// looked up.
pub fn wanted_actions(ranked: &Vec<(CacheDigest, String)>, staged: &Vec<bool>) -> (r: Vec<(CacheDigest, String)>)
    requires
        ranked.len() == staged.len(),
    ensures
        pair_views(r@) == unstaged(pair_views(ranked@), staged@),
{
    let ghost rs = pair_views(ranked@);
    let mut out: Vec<(CacheDigest, String)> = Vec::new();
    let mut i: usize = 0;
    while i < ranked.len()
        invariant
            i <= ranked.len(),
            ranked.len() == staged.len(),
            rs == pair_views(ranked@),
            pair_views(out@) == unstaged(rs.take(i as int), staged@.take(i as int)),
        decreases ranked.len() - i,
    {
        assert(rs.take(i + 1).drop_last() == rs.take(i as int));
        assert(staged@.take(i + 1).drop_last() == staged@.take(i as int));
        assert(rs.take(i + 1).last() == (ranked@[i as int].0@, ranked@[i as int].1@));
        assert(staged@.take(i + 1).last() == staged@[i as int]);
        if !staged[i] {
            let ghost before = out@;
            out.push(copy_pair(&ranked[i]));
            assert(pair_views(out@) == pair_views(before).push(rs[i as int]));
        }
        i = i + 1;
    }
    assert(rs.take(ranked.len() as int) == rs);
    assert(staged@.take(ranked.len() as int) == staged@);
    out
}

/// Cut `wanted` into batches of `limit` actions, the last holding the rest:
/// joined again they give `wanted`, in order.
pub fn prefetch_batches(wanted: &Vec<(CacheDigest, String)>, limit: usize) -> (r: Vec<Vec<(CacheDigest, String)>>)
    requires
        limit > 0,
    ensures
        batch_views(r@).flatten() == pair_views(wanted@),
        cut_by(batch_views(r@), limit as int),
{
    let ghost ws = pair_views(wanted@);
    let mut batches: Vec<Vec<(CacheDigest, String)>> = Vec::new();
    let mut current: Vec<(CacheDigest, String)> = Vec::new();
    let mut i: usize = 0;
    while i < wanted.len()
        invariant
            i <= wanted.len(),
            limit > 0,
            ws == pair_views(wanted@),
            batch_views(batches@).flatten() + pair_views(current@) == ws.take(i as int),
            current.len() < limit,
            forall|k: int| 0 <= k < batches.len() ==> (#[trigger] batches@[k]).len() == limit,
        decreases wanted.len() - i,
    {
        let ghost cb = current@;
        current.push(copy_pair(&wanted[i]));
        assert(pair_views(current@) == pair_views(cb).push(ws[i as int]));
        assert(ws.take(i + 1) == ws.take(i as int).push(ws[i as int]));
        if current.len() == limit {
            let ghost bb = batches@;
            let full = current;
            current = Vec::new();
            batches.push(full);
            proof {
                assert(batch_views(batches@) == batch_views(bb).push(pair_views(full@)));
                batch_views(bb).lemma_flatten_push(pair_views(full@));
                assert(pair_views(current@) == Seq::<(DigestView, Seq<char>)>::empty());
                assert(batches@[batches.len() - 1] == full);
            }
        }
        i = i + 1;
    }
    assert(ws.take(wanted.len() as int) == ws);
    if current.len() > 0 {
        let ghost bb = batches@;
        let ghost last = current@;
        batches.push(current);
        proof {
            assert(batch_views(batches@) == batch_views(bb).push(pair_views(last)));
            batch_views(bb).lemma_flatten_push(pair_views(last));
        }
    } else {
        assert(pair_views(current@) == Seq::<(DigestView, Seq<char>)>::empty());
        assert(batch_views(batches@).flatten() + Seq::<(DigestView, Seq<char>)>::empty() == batch_views(batches@).flatten());
    }
    assert forall|k: int| 0 <= k < batch_views(batches@).len() implies {
        &&& 0 < (#[trigger] batch_views(batches@)[k]).len() <= limit as int
        &&& k < batch_views(batches@).len() - 1 ==> batch_views(batches@)[k].len() == limit as int
    } by {
        assert(batch_views(batches@)[k] == pair_views(batches@[k]@));
    }
    batches
}

/// What the remote answered to one batched lookup.
#[derive(Debug, Clone)]
pub enum BatchAnswer {
    /// The results it holds: each result's action, and whether the local
    /// store already has a result for that action.
    Results(Vec<(CacheDigest, bool)>),
    /// The batch extension was advertised but is not available.
    Unavailable,
    /// The lookup failed.
    Failed,
}

/// The batched lookups of one prefetch so far: whether every batch was
/// answered, and the actions staged for prefetch, each with the adapter of
/// its candidate, in the order their results came.
#[derive(Debug)]
pub struct BatchState {
    /// Whether every batch so far was answered.
    pub answered: bool,
    /// Staged actions with their adapters.
    pub staged: Vec<(CacheDigest, String)>,
}

/// The adapter of the candidate for action `d`, if any candidate names it.
pub open spec fn candidate_adapter(cands: Seq<EntryView>, d: DigestView) -> Option<Seq<char>>
    decreases cands.len(),
{
    if cands.len() == 0 {
        None
    } else if cands[0].action == d {
        Some(cands[0].adapter)
    } else {
        candidate_adapter(cands.drop_first(), d)
    }
}

/// The results of an answer that are staged: those of a candidate action
/// the local store does not already hold, with the candidate's adapter.
pub open spec fn staged_results(cands: Seq<EntryView>, rs: Seq<(DigestView, bool)>) -> Seq<(DigestView, Seq<char>)>
    decreases rs.len(),
{
    if rs.len() == 0 {
        Seq::empty()
    } else {
        let rest = staged_results(cands, rs.drop_last());
        let (d, local) = rs.last();
        match candidate_adapter(cands, d) {
            Some(adapter) => if local { rest } else { rest.push((d, adapter)) },
            None => rest,
        }
    }
}

/// Result entries as plain values.
pub open spec fn result_views(rs: Seq<(CacheDigest, bool)>) -> Seq<(DigestView, bool)> {
    rs.map_values(|r: (CacheDigest, bool)| (r.0@, r.1))
}

fn adapter_of(cands: &Vec<(CacheDigest, PrefetchCandidate)>, d: &CacheDigest) -> (r: Option<String>)
    ensures
        match candidate_adapter(entry_views(cands@), d@) {
            Some(a) => r matches Some(x) && x@ == a,
            None => r is None,
        },
{
    let ghost all = entry_views(cands@);
    let mut j: usize = 0;
    assert(all.skip(0) == all);
    while j < cands.len()
        invariant
            j <= cands.len(),
            all == entry_views(cands@),
            candidate_adapter(all, d@) == candidate_adapter(all.skip(j as int), d@),
        decreases cands.len() - j,
    {
        assert(all.skip(j as int)[0] == all[j as int]);
        assert(all.skip(j as int).drop_first() == all.skip(j + 1));
        if same_digest(&cands[j].0, d) {
            return Some(cands[j].1.adapter.clone());
        }
        j = j + 1;
    }
    None
}

/// Take in the answer to one batched lookup: a batch that was not answered
/// clears the answered flag; otherwise each result of a candidate action
/// that the local store does not already hold is staged with its
/// candidate's adapter.
pub fn absorb_batch_answer(state: BatchState, candidates: &Vec<(CacheDigest, PrefetchCandidate)>, answer: &BatchAnswer) -> (r: BatchState)
    ensures
        match answer {
            BatchAnswer::Results(rs) => r.answered == state.answered
                && pair_views(r.staged@) == pair_views(state.staged@) + staged_results(entry_views(candidates@), result_views(rs@)),
            _ => !r.answered && pair_views(r.staged@) == pair_views(state.staged@),
        },
{
    let mut state = state;
    match answer {
        BatchAnswer::Results(rs) => {
            let ghost start = pair_views(state.staged@);
            let ghost cv = entry_views(candidates@);
            let ghost rv = result_views(rs@);
            let ghost answered0 = state.answered;
            let mut i: usize = 0;
            assert(rv.take(0) == Seq::<(DigestView, bool)>::empty());
            while i < rs.len()
                invariant
                    i <= rs.len(),
                    cv == entry_views(candidates@),
                    rv == result_views(rs@),
                    state.answered == answered0,
                    pair_views(state.staged@) == start + staged_results(cv, rv.take(i as int)),
                decreases rs.len() - i,
            {
                assert(rv.take(i + 1).drop_last() == rv.take(i as int));
                assert(rv.take(i + 1).last() == (rs@[i as int].0@, rs@[i as int].1));
                let ghost before = state.staged@;
                match adapter_of(candidates, &rs[i].0) {
                    Some(adapter) => {
                        if !rs[i].1 {
                            state.staged.push((rs[i].0.clone(), adapter));
                            assert(pair_views(state.staged@) == pair_views(before).push((rs@[i as int].0@, adapter@)));
                        }
                    },
                    None => {},
                }
                i = i + 1;
            }
            assert(rv.take(rs.len() as int) == rv);
            state
        },
        _ => {
            state.answered = false;
            state
        },
    }
}

} // verus!
