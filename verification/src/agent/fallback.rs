//! Where a task with no recorded predictions may inherit some: the
//! identities its fallbacks name, then the store's most recently written
//! manifests, each tried once.
use vstd::prelude::*;
use crate::agent::digest::{text_less, lemma_text_order, text_before};
use crate::agent::protocol::{is_task_identity_text, is_task_identity, MAX_TASK_ACTION_PREDICTIONS};
use crate::text::{chars_of, string_of, eq_chars, slice};

verus! {

/// How many of the store's most recently written manifests a task with
/// fallbacks tries after the named identities yield nothing.
pub const NEWEST_MANIFEST_CANDIDATES: usize = 8;

/// The identity a stored manifest's file name gives: the name less `.json`,
/// where that is a task identity.
pub open spec fn manifest_identity(name: Seq<char>) -> Option<Seq<char>> {
    if name.len() >= 5 && name.skip(name.len() - 5) == ".json"@ && is_task_identity_text(name.take(name.len() - 5)) {
        Some(name.take(name.len() - 5))
    } else {
        None
    }
}

/// A stored manifest: when it was last written (seconds and nanoseconds
/// since the Unix epoch) and its identity.
pub ghost struct Stamped {
    pub time: (u64, u32),
    pub identity: Seq<char>,
}

/// Whether `a` comes before `b` among the newest: written later, or at the
/// same time with the greater identity.
pub open spec fn newer(a: Stamped, b: Stamped) -> bool {
    a.time.0 > b.time.0 || (a.time.0 == b.time.0 && (a.time.1 > b.time.1
        || (a.time.1 == b.time.1 && text_less(b.identity, a.identity))))
}

proof fn lemma_newer_order(a: Stamped, b: Stamped, c: Stamped)
    ensures
        !newer(a, a),
        newer(a, b) ==> !newer(b, a),
        a != b ==> newer(a, b) || newer(b, a),
        newer(a, b) && newer(b, c) ==> newer(a, c),
{
    lemma_text_order(a.identity, b.identity, c.identity);
    lemma_text_order(b.identity, a.identity, c.identity);
    lemma_text_order(c.identity, b.identity, a.identity);
    lemma_text_order(a.identity, a.identity, a.identity);
    lemma_text_order(b.identity, a.identity, a.identity);
}

/// The stored manifests a directory listing shows: each entry whose name
/// gives an identity, with its modification time.
pub open spec fn stamped_of(entries: Seq<(String, (u64, u32))>) -> Set<Stamped> {
    Set::new(|s: Stamped| exists|i: int| 0 <= i < entries.len()
        && manifest_identity(#[trigger] entries[i].0@) == Some(s.identity) && entries[i].1 == s.time)
}

fn identity_of_name(name: &str) -> (r: Option<Vec<char>>)
    ensures
        match manifest_identity(name@) {
            Some(id) => r matches Some(v) && v@ == id,
            None => r is None,
        },
{
    let chars = chars_of(name);
    if chars.len() < 5 {
        return None;
    }
    let cut = chars.len() - 5;
    let suffix = slice(&chars, cut, chars.len());
    let stem = slice(&chars, 0, cut);
    proof {
        reveal_strlit(".json");
    }
    assert(chars@.skip(cut as int) =~= chars@.subrange(cut as int, chars.len() as int));
    assert(chars@.take(cut as int) =~= chars@.subrange(0, cut as int));
    if !crate::text::eq_lit(&suffix, ".json") {
        return None;
    }
    let stem_text = string_of(&stem);
    if !is_task_identity(stem_text.as_str()) {
        return None;
    }
    Some(stem)
}

fn newer_than(a: &((u64, u32), Vec<char>), b: &((u64, u32), Vec<char>)) -> (r: bool)
    ensures
        r == newer(Stamped { time: a.0, identity: a.1@ }, Stamped { time: b.0, identity: b.1@ }),
{
    if a.0.0 != b.0.0 {
        return a.0.0 > b.0.0;
    }
    if a.0.1 != b.0.1 {
        return a.0.1 > b.0.1;
    }
    text_before(&b.1, &a.1)
}

spec fn stamp(e: ((u64, u32), Vec<char>)) -> Stamped {
    Stamped { time: e.0, identity: e.1@ }
}

spec fn stamps(es: Seq<((u64, u32), Vec<char>)>) -> Seq<Stamped> {
    es.map_values(|e: ((u64, u32), Vec<char>)| stamp(e))
}

/// The identities of the store's most recently written manifests, newest
/// first and at most [`NEWEST_MANIFEST_CANDIDATES`] of them, from a listing
/// of the manifest directory: each file name with its modification time.
pub fn newest_task_identities(entries: &Vec<(String, (u64, u32))>) -> (r: Vec<String>)
    ensures
        exists|order: Seq<Stamped>| {
            &&& forall|i: int, j: int| 0 <= i < j < order.len() ==> newer(#[trigger] order[i], #[trigger] order[j])
            &&& forall|s: Stamped| #[trigger] order.contains(s) <==> stamped_of(entries@).contains(s)
            &&& r.len() == if order.len() < NEWEST_MANIFEST_CANDIDATES { order.len() } else { NEWEST_MANIFEST_CANDIDATES as nat }
            &&& forall|i: int| 0 <= i < r.len() ==> (#[trigger] r@[i])@ == order[i].identity
        },
{
    let mut order: Vec<((u64, u32), Vec<char>)> = Vec::new();
    let mut i: usize = 0;
    while i < entries.len()
        invariant
            i <= entries.len(),
            forall|a: int, b: int| 0 <= a < b < order.len() ==> newer(#[trigger] stamps(order@)[a], #[trigger] stamps(order@)[b]),
            forall|s: Stamped| #[trigger] stamps(order@).contains(s) <==> stamped_of(entries@.take(i as int)).contains(s),
        decreases entries.len() - i,
    {
        let ghost before = stamps(order@);
        let ghost prefix = entries@.take(i as int);
        let ghost next = entries@.take(i + 1);
        assert(next[i as int] == entries@[i as int]);
        assert forall|s: Stamped| stamped_of(prefix).contains(s) implies stamped_of(next).contains(s) by {
            if stamped_of(prefix).contains(s) {
                let k = choose|k: int| 0 <= k < prefix.len() && manifest_identity(#[trigger] prefix[k].0@) == Some(s.identity) && prefix[k].1 == s.time;
                assert(next[k] == prefix[k]);
            }
        }
        match identity_of_name(entries[i].0.as_str()) {
            None => {
                assert forall|s: Stamped| stamped_of(next).contains(s) implies stamped_of(prefix).contains(s) by {
                    if stamped_of(next).contains(s) {
                        let k = choose|k: int| 0 <= k < next.len() && manifest_identity(#[trigger] next[k].0@) == Some(s.identity) && next[k].1 == s.time;
                        assert(k != i);
                        assert(prefix[k] == next[k]);
                    }
                }
                assert forall|s: Stamped| #[trigger] stamps(order@).contains(s) <==> stamped_of(next).contains(s) by {}
            },
            Some(identity) => {
                let x = (entries[i].1, identity);
                let ghost xs = stamp(x);
                assert(stamped_of(next).contains(xs));
                let mut pos: usize = 0;
                while pos < order.len() && newer_than(&order[pos], &x)
                    invariant
                        pos <= order.len(),
                        before == stamps(order@),
                        xs == stamp(x),
                        forall|k: int| 0 <= k < pos ==> newer(#[trigger] before[k], xs),
                    decreases order.len() - pos,
                {
                    pos = pos + 1;
                }
                let present = pos < order.len() && order[pos].0.0 == x.0.0 && order[pos].0.1 == x.0.1 && eq_chars(&order[pos].1, &x.1);
                if present {
                    assert(before[pos as int] == xs);
                    assert forall|s: Stamped| stamped_of(next).contains(s) implies #[trigger] stamps(order@).contains(s) by {
                        if stamped_of(next).contains(s) {
                            let k = choose|k: int| 0 <= k < next.len() && manifest_identity(#[trigger] next[k].0@) == Some(s.identity) && next[k].1 == s.time;
                            if k == i {
                                assert(s == xs);
                                assert(before.contains(xs));
                            } else {
                                assert(prefix[k] == next[k]);
                                assert(stamped_of(prefix).contains(s));
                            }
                        }
                    }
                    assert forall|s: Stamped| #[trigger] stamps(order@).contains(s) <==> stamped_of(next).contains(s) by {}
                } else {
                    assert forall|k: int| pos <= k < before.len() implies newer(xs, #[trigger] before[k]) by {
                        lemma_newer_order(before[pos as int], xs, before[k]);
                        lemma_newer_order(xs, before[pos as int], before[k]);
                        if k > pos {
                            assert(newer(before[pos as int], before[k]));
                        }
                    }
                    order.insert(pos, x);
                    let ghost now = stamps(order@);
                    assert(now =~= before.insert(pos as int, xs));
                    assert forall|a: int, b: int| 0 <= a < b < now.len() implies newer(#[trigger] now[a], #[trigger] now[b]) by {
                        if b < pos {
                        } else if a > pos {
                            assert(now[a] == before[a - 1]);
                            assert(now[b] == before[b - 1]);
                        } else if a == pos {
                            assert(now[b] == before[b - 1]);
                        } else if b == pos {
                        } else {
                            assert(now[b] == before[b - 1]);
                            lemma_newer_order(before[a], xs, before[b - 1]);
                        }
                    }
                    assert forall|s: Stamped| #[trigger] now.contains(s) <==> stamped_of(next).contains(s) by {
                        if now.contains(s) {
                            let m = choose|m: int| 0 <= m < now.len() && now[m] == s;
                            if m != pos {
                                let b = if m < pos { m } else { m - 1 };
                                assert(before[b] == s);
                                assert(before.contains(s));
                            }
                        }
                        if stamped_of(next).contains(s) {
                            let k = choose|k: int| 0 <= k < next.len() && manifest_identity(#[trigger] next[k].0@) == Some(s.identity) && next[k].1 == s.time;
                            if k == i {
                                assert(s == xs);
                                assert(now[pos as int] == xs);
                            } else {
                                assert(prefix[k] == next[k]);
                                assert(stamped_of(prefix).contains(s));
                                assert(before.contains(s));
                                let m = choose|m: int| 0 <= m < before.len() && before[m] == s;
                                if m < pos {
                                    assert(now[m] == s);
                                } else {
                                    assert(now[m + 1] == s);
                                }
                            }
                        }
                    }
                }
            },
        }
        i = i + 1;
    }
    assert(entries@.take(entries.len() as int) =~= entries@);
    let ghost all = stamps(order@);
    let mut out: Vec<String> = Vec::new();
    let mut k: usize = 0;
    while k < order.len() && k < NEWEST_MANIFEST_CANDIDATES
        invariant
            k <= order.len(),
            k <= NEWEST_MANIFEST_CANDIDATES,
            all == stamps(order@),
            out.len() == k,
            forall|m: int| 0 <= m < k ==> (#[trigger] out@[m])@ == all[m].identity,
        decreases order.len() - k,
    {
        out.push(string_of(&order[k].1));
        k = k + 1;
    }
    assert(out.len() == if all.len() < NEWEST_MANIFEST_CANDIDATES { all.len() } else { NEWEST_MANIFEST_CANDIDATES as nat });
    assert(forall|s: Stamped| #[trigger] all.contains(s) <==> stamped_of(entries@).contains(s));
    assert(forall|a: int, b: int| 0 <= a < b < all.len() ==> newer(#[trigger] all[a], #[trigger] all[b]));
    out
}

/// The identities to try for `task`, in order, each marked whether a
/// fallback named it: the named ones, then the newest; each at most once,
/// never `task` itself, and only task identities.
pub open spec fn candidates_from(all: Seq<(Seq<char>, bool)>, tried: Set<Seq<char>>) -> Seq<(Seq<char>, bool)>
    decreases all.len(),
{
    if all.len() == 0 {
        Seq::empty()
    } else {
        let (identity, named) = all[0];
        if tried.contains(identity) {
            candidates_from(all.drop_first(), tried)
        } else if !is_task_identity_text(identity) {
            candidates_from(all.drop_first(), tried.insert(identity))
        } else {
            seq![(identity, named)] + candidates_from(all.drop_first(), tried.insert(identity))
        }
    }
}

/// Each identity is tried at most once, none already tried (the task
/// itself among them), and each a task identity.
pub proof fn lemma_candidates_are_new_identities(all: Seq<(Seq<char>, bool)>, tried: Set<Seq<char>>)
    ensures
        forall|i: int| 0 <= i < candidates_from(all, tried).len() ==> {
            &&& !tried.contains((#[trigger] candidates_from(all, tried)[i]).0)
            &&& is_task_identity_text(candidates_from(all, tried)[i].0)
        },
        forall|i: int, j: int| 0 <= i < j < candidates_from(all, tried).len()
            ==> (#[trigger] candidates_from(all, tried)[i]).0 != (#[trigger] candidates_from(all, tried)[j]).0,
    decreases all.len(),
{
    if all.len() > 0 {
        let (identity, named) = all[0];
        let rest = all.drop_first();
        if tried.contains(identity) {
            lemma_candidates_are_new_identities(rest, tried);
            assert(candidates_from(all, tried) == candidates_from(rest, tried));
        } else if !is_task_identity_text(identity) {
            lemma_candidates_are_new_identities(rest, tried.insert(identity));
            let c = candidates_from(all, tried);
            assert(c == candidates_from(rest, tried.insert(identity)));
            assert forall|i: int| 0 <= i < c.len() implies !tried.contains((#[trigger] c[i]).0) && is_task_identity_text(c[i].0) by {
                assert(!tried.insert(identity).contains(c[i].0));
            }
        } else {
            let more = candidates_from(rest, tried.insert(identity));
            lemma_candidates_are_new_identities(rest, tried.insert(identity));
            let c = candidates_from(all, tried);
            assert(c == seq![(identity, named)] + more);
            assert forall|i: int| 0 <= i < c.len() implies !tried.contains((#[trigger] c[i]).0) && is_task_identity_text(c[i].0) by {
                if i > 0 {
                    assert(c[i] == more[i - 1]);
                }
            }
            assert forall|i: int, j: int| 0 <= i < j < c.len() implies (#[trigger] c[i]).0 != (#[trigger] c[j]).0 by {
                assert(c[j] == more[j - 1]);
                if i > 0 {
                    assert(c[i] == more[i - 1]);
                } else {
                    assert(!tried.insert(identity).contains(more[j - 1].0));
                }
            }
        }
    }
}

/// Every identity offered, named ones first.
pub open spec fn offered(named: Seq<String>, newest: Seq<String>) -> Seq<(Seq<char>, bool)> {
    named.map_values(|n: String| (n@, true)) + newest.map_values(|n: String| (n@, false))
}

/// The identities a task with fallbacks tries, see [`candidates_from`].
pub fn fallback_candidates(task: &str, named: &Vec<String>, newest: &Vec<String>) -> (r: Vec<(String, bool)>)
    ensures
        r@.map_values(|c: (String, bool)| (c.0@, c.1)) == candidates_from(offered(named@, newest@), set![task@]),
{
    let ghost all = offered(named@, newest@);
    let mut combined: Vec<(String, bool)> = Vec::new();
    let mut n: usize = 0;
    while n < named.len()
        invariant
            n <= named.len(),
            combined@.map_values(|c: (String, bool)| (c.0@, c.1)) == named@.map_values(|x: String| (x@, true)).take(n as int),
        decreases named.len() - n,
    {
        let ghost before = combined@.map_values(|c: (String, bool)| (c.0@, c.1));
        combined.push((named[n].clone(), true));
        assert(combined@.map_values(|c: (String, bool)| (c.0@, c.1)) =~= before.push((named@[n as int]@, true)));
        assert(named@.map_values(|x: String| (x@, true)).take(n + 1) =~= named@.map_values(|x: String| (x@, true)).take(n as int).push((named@[n as int]@, true)));
        n = n + 1;
    }
    assert(named@.map_values(|x: String| (x@, true)).take(named.len() as int) =~= named@.map_values(|x: String| (x@, true)));
    let mut m: usize = 0;
    while m < newest.len()
        invariant
            m <= newest.len(),
            combined@.map_values(|c: (String, bool)| (c.0@, c.1)) == named@.map_values(|x: String| (x@, true))
                + newest@.map_values(|x: String| (x@, false)).take(m as int),
        decreases newest.len() - m,
    {
        let ghost before = combined@.map_values(|c: (String, bool)| (c.0@, c.1));
        combined.push((newest[m].clone(), false));
        assert(combined@.map_values(|c: (String, bool)| (c.0@, c.1)) =~= before.push((newest@[m as int]@, false)));
        assert(newest@.map_values(|x: String| (x@, false)).take(m + 1) =~= newest@.map_values(|x: String| (x@, false)).take(m as int).push((newest@[m as int]@, false)));
        m = m + 1;
    }
    assert(newest@.map_values(|x: String| (x@, false)).take(newest.len() as int) =~= newest@.map_values(|x: String| (x@, false)));
    assert(combined@.map_values(|c: (String, bool)| (c.0@, c.1)) =~= all);
    let mut tried: Vec<String> = Vec::new();
    tried.push(String::from_str(task));
    let ghost mut tried_set: Set<Seq<char>> = set![task@];
    assert forall|x: Seq<char>| tried_set.contains(x) <==> tried@.map_values(|t: String| t@).contains(x) by {
        if x == task@ {
            assert(tried@.map_values(|t: String| t@)[0] == x);
        }
    }
    let mut out: Vec<(String, bool)> = Vec::new();
    let mut i: usize = 0;
    assert(all.skip(0) == all);
    while i < combined.len()
        invariant
            i <= combined.len(),
            combined@.map_values(|c: (String, bool)| (c.0@, c.1)) == all,
            forall|x: Seq<char>| tried_set.contains(x) <==> tried@.map_values(|t: String| t@).contains(x),
            out@.map_values(|c: (String, bool)| (c.0@, c.1)) + candidates_from(all.skip(i as int), tried_set)
                == candidates_from(all, set![task@]),
        decreases combined.len() - i,
    {
        let identity = combined[i].0.clone();
        let from_named = combined[i].1;
        assert(all[i as int] == (identity@, from_named));
        let ghost tv = tried@.map_values(|t: String| t@);
        let ghost rest = all.skip(i as int);
        assert(rest[0] == all[i as int]);
        assert(rest.drop_first() =~= all.skip(i + 1));
        let mut seen = false;
        let mut k: usize = 0;
        while k < tried.len()
            invariant
                k <= tried.len(),
                tv == tried@.map_values(|t: String| t@),
                seen == exists|q: int| 0 <= q < k && tv[q] == identity@,
            decreases tried.len() - k,
        {
            if tried[k] == identity {
                assert(tv[k as int] == identity@);
                seen = true;
            }
            k = k + 1;
        }
        assert(seen == tried_set.contains(identity@)) by {
            if tv.contains(identity@) {
                let q = choose|q: int| 0 <= q < tv.len() && tv[q] == identity@;
                assert(tv[q] == identity@);
            }
        }
        if !seen {
            let valid = is_task_identity(identity.as_str());
            let ghost before = out@.map_values(|c: (String, bool)| (c.0@, c.1));
            tried.push(identity.clone());
            proof {
                let nv = tried@.map_values(|t: String| t@);
                assert(nv =~= tv.push(identity@));
                assert forall|x: Seq<char>| tried_set.insert(identity@).contains(x) <==> nv.contains(x) by {
                    if tv.contains(x) {
                        let q = choose|q: int| 0 <= q < tv.len() && tv[q] == x;
                        assert(nv[q] == x);
                    }
                    if x == identity@ {
                        assert(nv[tv.len() as int] == x);
                    }
                    if nv.contains(x) {
                        let q = choose|q: int| 0 <= q < nv.len() && nv[q] == x;
                        if q < tv.len() {
                            assert(tv[q] == x);
                        }
                    }
                }
                tried_set = tried_set.insert(identity@);
            }
            if valid {
                out.push((identity, from_named));
                assert(out@.map_values(|c: (String, bool)| (c.0@, c.1)) =~= before.push(all[i as int]));
                assert(before.push(all[i as int]) + candidates_from(all.skip(i + 1), tried_set)
                    =~= before + (seq![all[i as int]] + candidates_from(all.skip(i + 1), tried_set)));
            }
        }
        i = i + 1;
    }
    assert(all.skip(combined.len() as int) =~= Seq::<(Seq<char>, bool)>::empty());
    assert(out@.map_values(|c: (String, bool)| (c.0@, c.1)) + Seq::<(Seq<char>, bool)>::empty()
        =~= out@.map_values(|c: (String, bool)| (c.0@, c.1)));
    out
}

/// Whether a found manifest may be inherited: it holds predictions, and one
/// found only by being recent fills at most half the prediction limit (an
/// unrelated workspace's large manifest would leave this one's own
/// recordings no room).
pub fn inheritable(predictions: usize, named: bool) -> (r: bool)
    ensures
        r == (predictions > 0 && (named || predictions <= MAX_TASK_ACTION_PREDICTIONS / 2)),
{
    predictions > 0 && (named || predictions <= MAX_TASK_ACTION_PREDICTIONS / 2)
}

} // verus!
