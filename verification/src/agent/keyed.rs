//! Small maps keyed by text, held as vectors ordered by key the way a
//! `BTreeMap<String, _>` orders its entries.
use vstd::prelude::*;
use crate::agent::digest::{text_less, lemma_text_order, text_before};
use crate::text::chars_of;

verus! {

/// Entries as plain values.
pub open spec fn pairs<V>(es: Seq<(String, V)>) -> Seq<(Seq<char>, V)> {
    es.map_values(|e: (String, V)| (e.0@, e.1))
}

/// Whether entries are strictly ordered by key.
pub open spec fn keys_sorted<V>(es: Seq<(Seq<char>, V)>) -> bool {
    forall|i: int, j: int| 0 <= i < j < es.len() ==> text_less(#[trigger] es[i].0, #[trigger] es[j].0)
}

/// Whether `es` lists exactly the entries of `m`.
pub open spec fn lists<V>(es: Seq<(Seq<char>, V)>, m: Map<Seq<char>, V>) -> bool {
    forall|k: Seq<char>, v: V| es.contains((k, v)) <==> (m.contains_key(k) && m[k] == v)
}

/// The map a key-ordered entry list stands for.
pub open spec fn as_map<V>(es: Seq<(Seq<char>, V)>) -> Map<Seq<char>, V> {
    Map::new(
        |k: Seq<char>| exists|i: int| 0 <= i < es.len() && es[i].0 == k,
        |k: Seq<char>| es[choose|i: int| 0 <= i < es.len() && es[i].0 == k].1,
    )
}

/// Sorted entries list exactly their map.
pub proof fn lemma_sorted_lists<V>(es: Seq<(Seq<char>, V)>)
    requires
        keys_sorted(es),
    ensures
        lists(es, as_map(es)),
{
    assert forall|k: Seq<char>, v: V| es.contains((k, v)) <==> (as_map(es).contains_key(k) && as_map(es)[k] == v) by {
        if es.contains((k, v)) {
            let i = choose|i: int| 0 <= i < es.len() && es[i] == (k, v);
            assert(es[i].0 == k);
            let j = choose|j: int| 0 <= j < es.len() && es[j].0 == k;
            if i != j {
                lemma_text_order(k, k, k);
                if i < j {
                    assert(text_less(es[i].0, es[j].0));
                } else {
                    assert(text_less(es[j].0, es[i].0));
                }
            }
        }
        if as_map(es).contains_key(k) && as_map(es)[k] == v {
            let j = choose|j: int| 0 <= j < es.len() && es[j].0 == k;
            assert(es[j] == (k, v));
        }
    }
}

proof fn lemma_lists_insert<V>(out: Seq<(Seq<char>, V)>, ps: Seq<(Seq<char>, V)>, k0: Seq<char>, v0: V)
    requires
        lists(out, as_map(out)),
        lists(ps, as_map(ps)),
        forall|k: Seq<char>, v: V| out.contains((k, v)) <==> (ps.contains((k, v)) && k != k0) || (k == k0 && v == v0),
    ensures
        as_map(out) == as_map(ps).insert(k0, v0),
{
    let goal = as_map(ps).insert(k0, v0);
    assert forall|k: Seq<char>| #[trigger] as_map(out).dom().contains(k) == goal.dom().contains(k)
        && (as_map(out).dom().contains(k) ==> as_map(out)[k] == goal[k]) by {
        if as_map(out).dom().contains(k) {
            let v = as_map(out)[k];
            assert(out.contains((k, v)));
            if k != k0 {
                assert(ps.contains((k, v)));
                assert(as_map(ps).contains_key(k));
            }
        }
        if goal.dom().contains(k) {
            if k == k0 {
                assert(out.contains((k0, v0)));
            } else {
                let v = as_map(ps)[k];
                assert(ps.contains((k, v)));
                assert(out.contains((k, v)));
            }
        }
    }
    assert(as_map(out) =~= goal);
}

/// Where `key` is, or where it would go.
pub fn find_key<V>(es: &Vec<(String, V)>, key: &str) -> (r: Result<usize, usize>)
    requires
        keys_sorted(pairs(es@)),
    ensures
        match r {
            Ok(i) => i < es.len() && es@[i as int].0@ == key@,
            Err(pos) => pos <= es.len()
                && (forall|k: int| 0 <= k < pos ==> text_less(#[trigger] pairs(es@)[k].0, key@))
                && (forall|k: int| pos <= k < es.len() ==> text_less(key@, #[trigger] pairs(es@)[k].0)),
        },
{
    let ghost ps = pairs(es@);
    let wanted = chars_of(key);
    let mut pos: usize = 0;
    loop
        invariant
            pos <= es.len(),
            ps == pairs(es@),
            wanted@ == key@,
            keys_sorted(ps),
            forall|k: int| 0 <= k < pos ==> text_less(#[trigger] ps[k].0, key@),
        decreases es.len() - pos,
    {
        if pos >= es.len() {
            return Err(pos);
        }
        let here = chars_of(es[pos].0.as_str());
        assert(here@ == ps[pos as int].0);
        if text_before(&here, &wanted) {
            pos = pos + 1;
        } else if text_before(&wanted, &here) {
            assert forall|k: int| pos <= k < es.len() implies text_less(key@, #[trigger] ps[k].0) by {
                if k > pos {
                    assert(text_less(ps[pos as int].0, ps[k].0));
                    lemma_text_order(key@, ps[pos as int].0, ps[k].0);
                }
            }
            return Err(pos);
        } else {
            proof {
                lemma_text_order(here@, wanted@, wanted@);
            }
            return Ok(pos);
        }
    }
}

/// The value under `key`, if any.
pub fn lookup<V: Copy>(es: &Vec<(String, V)>, key: &str) -> (r: Option<V>)
    requires
        keys_sorted(pairs(es@)),
    ensures
        r == (if as_map(pairs(es@)).contains_key(key@) { Some(as_map(pairs(es@))[key@]) } else { None::<V> }),
{
    let ghost ps = pairs(es@);
    proof {
        lemma_sorted_lists(ps);
    }
    match find_key(es, key) {
        Ok(i) => {
            assert(ps[i as int] == (key@, es@[i as int].1));
            assert(ps.contains((key@, es@[i as int].1)));
            Some(es[i].1)
        },
        Err(pos) => {
            assert(!as_map(ps).contains_key(key@)) by {
                if as_map(ps).contains_key(key@) {
                    let j = choose|j: int| 0 <= j < ps.len() && ps[j].0 == key@;
                    lemma_text_order(key@, key@, key@);
                }
            }
            None
        },
    }
}

/// Set `key` to `value`, keeping the entries ordered by key.
pub fn upsert<V>(es: &mut Vec<(String, V)>, key: String, value: V)
    requires
        keys_sorted(pairs(old(es)@)),
    ensures
        keys_sorted(pairs(final(es)@)),
        as_map(pairs(final(es)@)) == as_map(pairs(old(es)@)).insert(key@, value),
        final(es)@.len() == old(es)@.len() + if as_map(pairs(old(es)@)).contains_key(key@) { 0int } else { 1int },
{
    let ghost ps = pairs(es@);
    let ghost k0 = key@;
    let ghost v0 = value;
    proof {
        lemma_sorted_lists(ps);
    }
    match find_key(es, key.as_str()) {
        Ok(i) => {
            assert(ps[i as int].0 == k0);
            assert(as_map(ps).contains_key(k0));
            es.set(i, (key, value));
            let ghost out = pairs(es@);
            assert(out == ps.update(i as int, (k0, v0)));
            assert(keys_sorted(out)) by {
                assert forall|a: int, b: int| 0 <= a < b < out.len() implies text_less(#[trigger] out[a].0, #[trigger] out[b].0) by {
                    assert(out[a].0 == ps[a].0);
                    assert(out[b].0 == ps[b].0);
                }
            }
            proof {
                lemma_sorted_lists(out);
                assert forall|k: Seq<char>, v: V| out.contains((k, v)) <==> (ps.contains((k, v)) && k != k0) || (k == k0 && v == v0) by {
                    if out.contains((k, v)) {
                        let m = choose|m: int| 0 <= m < out.len() && out[m] == (k, v);
                        if m != i {
                            assert(ps[m] == (k, v));
                            lemma_text_order(k0, k0, k0);
                            if m < i {
                                assert(text_less(ps[m].0, ps[i as int].0));
                            } else {
                                assert(text_less(ps[i as int].0, ps[m].0));
                            }
                        }
                    }
                    if ps.contains((k, v)) && k != k0 {
                        let m = choose|m: int| 0 <= m < ps.len() && ps[m] == (k, v);
                        assert(out[m] == (k, v));
                    }
                    if k == k0 && v == v0 {
                        assert(out[i as int] == (k, v));
                    }
                }
                lemma_lists_insert(out, ps, k0, v0);
            }
        },
        Err(pos) => {
            assert(!as_map(ps).contains_key(k0)) by {
                if as_map(ps).contains_key(k0) {
                    let j = choose|j: int| 0 <= j < ps.len() && ps[j].0 == k0;
                    lemma_text_order(k0, k0, k0);
                }
            }
            es.insert(pos, (key, value));
            let ghost out = pairs(es@);
            assert(out =~= ps.insert(pos as int, (k0, v0)));
            assert forall|a: int, b: int| 0 <= a < b < out.len() implies text_less(#[trigger] out[a].0, #[trigger] out[b].0) by {
                if b < pos {
                } else if a > pos {
                    assert(out[a] == ps[a - 1]);
                    assert(out[b] == ps[b - 1]);
                } else if a == pos {
                    assert(out[b] == ps[b - 1]);
                } else if b == pos {
                } else {
                    assert(out[b] == ps[b - 1]);
                    lemma_text_order(ps[a].0, k0, ps[b - 1].0);
                }
            }
            proof {
                lemma_sorted_lists(out);
                assert forall|k: Seq<char>, v: V| out.contains((k, v)) <==> (ps.contains((k, v)) && k != k0) || (k == k0 && v == v0) by {
                    lemma_text_order(k0, k0, k0);
                    if out.contains((k, v)) {
                        let m = choose|m: int| 0 <= m < out.len() && out[m] == (k, v);
                        if m < pos {
                            assert(ps[m] == (k, v));
                        } else if m > pos {
                            assert(ps[m - 1] == (k, v));
                        }
                    }
                    if ps.contains((k, v)) && k != k0 {
                        let m = choose|m: int| 0 <= m < ps.len() && ps[m] == (k, v);
                        if m < pos {
                            assert(out[m] == (k, v));
                        } else {
                            assert(out[m + 1] == (k, v));
                        }
                    }
                    if k == k0 && v == v0 {
                        assert(out[pos as int] == (k, v));
                    }
                }
                lemma_lists_insert(out, ps, k0, v0);
            }
        },
    }
}

proof fn lemma_lists_remove<V>(out: Seq<(Seq<char>, V)>, ps: Seq<(Seq<char>, V)>, k0: Seq<char>)
    requires
        lists(out, as_map(out)),
        lists(ps, as_map(ps)),
        forall|k: Seq<char>, v: V| out.contains((k, v)) <==> (ps.contains((k, v)) && k != k0),
    ensures
        as_map(out) == as_map(ps).remove(k0),
{
    let goal = as_map(ps).remove(k0);
    assert forall|k: Seq<char>| #[trigger] as_map(out).dom().contains(k) == goal.dom().contains(k)
        && (as_map(out).dom().contains(k) ==> as_map(out)[k] == goal[k]) by {
        if as_map(out).dom().contains(k) {
            let v = as_map(out)[k];
            assert(out.contains((k, v)));
            assert(ps.contains((k, v)));
        }
        if goal.dom().contains(k) {
            let v = as_map(ps)[k];
            assert(ps.contains((k, v)));
            assert(out.contains((k, v)));
        }
    }
    assert(as_map(out) =~= goal);
}

/// Take `key` out, keeping the entries ordered by key; its value, if it had
/// one.
pub fn remove_key<V>(es: &mut Vec<(String, V)>, key: &str) -> (r: Option<V>)
    requires
        keys_sorted(pairs(old(es)@)),
    ensures
        keys_sorted(pairs(final(es)@)),
        as_map(pairs(final(es)@)) == as_map(pairs(old(es)@)).remove(key@),
        match r {
            Some(v) => as_map(pairs(old(es)@)).contains_key(key@) && as_map(pairs(old(es)@))[key@] == v,
            None => !as_map(pairs(old(es)@)).contains_key(key@),
        },
{
    let ghost ps = pairs(es@);
    let ghost k0 = key@;
    proof {
        lemma_sorted_lists(ps);
    }
    match find_key(es, key) {
        Ok(i) => {
            assert(ps[i as int].0 == k0);
            let (_, value) = es.remove(i);
            let ghost out = pairs(es@);
            assert(out =~= ps.remove(i as int));
            assert(ps.contains((k0, value))) by {
                assert(ps[i as int] == (k0, value));
            }
            assert forall|a: int, b: int| 0 <= a < b < out.len() implies text_less(#[trigger] out[a].0, #[trigger] out[b].0) by {
                if b < i {
                } else if a >= i {
                    assert(out[a] == ps[a + 1]);
                    assert(out[b] == ps[b + 1]);
                } else {
                    assert(out[b] == ps[b + 1]);
                    lemma_text_order(ps[a].0, ps[i as int].0, ps[b + 1].0);
                }
            }
            proof {
                lemma_sorted_lists(out);
                assert forall|k: Seq<char>, v: V| out.contains((k, v)) <==> (ps.contains((k, v)) && k != k0) by {
                    lemma_text_order(k0, k0, k0);
                    if out.contains((k, v)) {
                        let m = choose|m: int| 0 <= m < out.len() && out[m] == (k, v);
                        if m < i {
                            assert(ps[m] == (k, v));
                            assert(text_less(ps[m].0, ps[i as int].0));
                        } else {
                            assert(ps[m + 1] == (k, v));
                            assert(text_less(ps[i as int].0, ps[m + 1].0));
                        }
                    }
                    if ps.contains((k, v)) && k != k0 {
                        let m = choose|m: int| 0 <= m < ps.len() && ps[m] == (k, v);
                        if m < i {
                            assert(out[m] == (k, v));
                        } else {
                            assert(m != i);
                            assert(out[m - 1] == (k, v));
                        }
                    }
                }
                lemma_lists_remove(out, ps, k0);
            }
            Some(value)
        },
        Err(_) => {
            assert(!as_map(ps).contains_key(k0)) by {
                if as_map(ps).contains_key(k0) {
                    let j = choose|j: int| 0 <= j < ps.len() && ps[j].0 == k0;
                    lemma_text_order(k0, k0, k0);
                }
            }
            assert(as_map(ps).remove(k0) =~= as_map(ps));
            None
        },
    }
}

} // verus!
