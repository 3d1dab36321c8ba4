//! The inputs of a C or C++ action key: every context input under its path
//! normalized for the key, one digest per path, ordered by path, and every
//! required input among them.
use vstd::prelude::*;
use crate::agent::digest::{CacheDigest, DigestView, is_valid_digest, same_digest, text_less};
use crate::agent::keyed::{as_map, find_key, keys_sorted, pairs, upsert};
use crate::cc::reason::{BypassView, CcBypassReason};

verus! {

/// One context input: its path as the compiler saw it, its digest, and its
/// path normalized for the key, or why it could not be normalized.
#[derive(Debug)]
pub struct KeyedInput {
    /// The path as the compiler saw it.
    pub path: String,
    /// The digest of its contents.
    pub digest: CacheDigest,
    /// The path normalized for the key.
    pub normalized: Result<String, CcBypassReason>,
}

/// A normalized path, or why there is none, as plain values.
pub open spec fn normalized_view(n: Result<String, CcBypassReason>) -> Result<Seq<char>, BypassView> {
    match n {
        Ok(p) => Ok(p@),
        Err(e) => Err(e@),
    }
}

/// The key's inputs from the `i`-th on, added to `acc`: a digest of another
/// algorithm or shape is refused under the input's own path, a path that
/// could not be normalized is refused as normalization said, and one path
/// with two different digests is a conflict.
pub open spec fn fold_inputs(ins: Seq<KeyedInput>, i: int, acc: Map<Seq<char>, DigestView>) -> Result<Map<Seq<char>, DigestView>, BypassView>
    decreases ins.len() - i,
{
    if i < 0 || i >= ins.len() {
        Ok(acc)
    } else if !is_valid_digest(ins[i].digest@) {
        Err(BypassView::InvalidInputDigest(ins[i].path@))
    } else {
        match normalized_view(ins[i].normalized) {
            Err(e) => Err(e),
            Ok(p) => if acc.contains_key(p) && acc[p] != ins[i].digest@ {
                Err(BypassView::ConflictingInput(p))
            } else {
                fold_inputs(ins, i + 1, acc.insert(p, ins[i].digest@))
            },
        }
    }
}

/// The first required path from the `i`-th on that could not be normalized.
pub open spec fn first_required_error(rs: Seq<Result<String, CcBypassReason>>, i: int) -> Option<BypassView>
    decreases rs.len() - i,
{
    if i < 0 || i >= rs.len() {
        None
    } else {
        match rs[i] {
            Err(e) => Some(e@),
            Ok(_) => first_required_error(rs, i + 1),
        }
    }
}

/// Whether a required path was normalized to `p`.
pub open spec fn ok_is(r: Result<String, CcBypassReason>, p: Seq<char>) -> bool {
    match r {
        Ok(q) => q@ == p,
        Err(_) => false,
    }
}

/// The normalized required paths.
pub open spec fn required_set(rs: Seq<Result<String, CcBypassReason>>) -> Set<Seq<char>> {
    Set::new(|p: Seq<char>| exists|i: int| 0 <= i < rs.len() && ok_is(#[trigger] rs[i], p))
}

/// An entry list's map, its digests as plain values.
pub open spec fn digest_map(es: Seq<(String, CacheDigest)>) -> Map<Seq<char>, DigestView> {
    as_map(pairs(es)).map_values(|d: CacheDigest| d@)
}

proof fn lemma_absent<V>(es: Seq<(Seq<char>, V)>, key: Seq<char>, pos: int)
    requires
        0 <= pos <= es.len(),
        forall|k: int| 0 <= k < pos ==> text_less(#[trigger] es[k].0, key),
        forall|k: int| pos <= k < es.len() ==> text_less(key, #[trigger] es[k].0),
    ensures
        !as_map(es).contains_key(key),
{
    if as_map(es).contains_key(key) {
        let k = choose|k: int| 0 <= k < es.len() && es[k].0 == key;
        crate::agent::digest::lemma_text_order(key, key, key);
        if k < pos {
            assert(text_less(es[k].0, key));
        } else {
            assert(text_less(key, es[k].0));
        }
    }
}

/// The key's inputs: each context input under its normalized path, one
/// digest per path and ordered by path; refused at the first input with an
/// invalid digest, an unnormalizable path or a conflicting digest, then at
/// the first required path that could not be normalized, then at the least
/// required path no input has.
pub fn action_inputs(inputs: &Vec<KeyedInput>, required: &Vec<Result<String, CcBypassReason>>) -> (r: Result<Vec<(String, CacheDigest)>, CcBypassReason>)
    ensures
        match fold_inputs(inputs@, 0, Map::empty()) {
            Err(e) => r matches Err(x) && x@ == e,
            Ok(m) => match first_required_error(required@, 0) {
                Some(e) => r matches Err(x) && x@ == e,
                None => if required_set(required@).subset_of(m.dom()) {
                    r matches Ok(out) && keys_sorted(pairs(out@)) && digest_map(out@) == m
                } else {
                    r matches Err(x) && (x@ matches BypassView::MissingRequiredInput(p)
                        && required_set(required@).contains(p) && !m.contains_key(p)
                        && forall|q: Seq<char>| required_set(required@).contains(q) && !m.contains_key(q) ==> q == p || text_less(p, q))
                },
            },
        },
{
    let mut acc: Vec<(String, CacheDigest)> = Vec::new();
    assert(digest_map(acc@) =~= Map::<Seq<char>, DigestView>::empty());
    let mut i: usize = 0;
    while i < inputs.len()
        invariant
            i <= inputs.len(),
            keys_sorted(pairs(acc@)),
            fold_inputs(inputs@, 0, Map::empty()) == fold_inputs(inputs@, i as int, digest_map(acc@)),
        decreases inputs.len() - i,
    {
        let input = &inputs[i];
        if !input.digest.validate() {
            return Err(CcBypassReason::InvalidInputDigest(input.path.clone()));
        }
        let path = match &input.normalized {
            Err(e) => {
                return Err(e.clone_reason());
            },
            Ok(p) => p.clone(),
        };
        match find_key(&acc, path.as_str()) {
            Ok(k) => {
                proof {
                    assert(pairs(acc@)[k as int] == (path@, acc@[k as int].1));
                    crate::agent::keyed::lemma_sorted_lists(pairs(acc@));
                    assert(pairs(acc@).contains((path@, acc@[k as int].1)));
                }
                assert(as_map(pairs(acc@)).contains_key(path@));
                assert(as_map(pairs(acc@))[path@] == acc@[k as int].1);
                if !same_digest(&acc[k].1, &input.digest) {
                    return Err(CcBypassReason::ConflictingInput(path));
                }
                let ghost before = digest_map(acc@);
                upsert(&mut acc, path, input.digest.clone());
                assert(digest_map(acc@) =~= before.insert(inputs@[i as int].normalized->Ok_0@, inputs@[i as int].digest@));
            },
            Err(pos) => {
                proof {
                    lemma_absent(pairs(acc@), path@, pos as int);
                }
                let ghost before = digest_map(acc@);
                let ghost key = path@;
                upsert(&mut acc, path, input.digest.clone());
                assert(digest_map(acc@) =~= before.insert(key, inputs@[i as int].digest@));
            },
        }
        i = i + 1;
    }
    let ghost m = digest_map(acc@);
    assert(fold_inputs(inputs@, 0, Map::empty()) == Ok::<Map<Seq<char>, DigestView>, BypassView>(m));
    // The required paths, ordered and once each.
    let mut wanted: Vec<(String, bool)> = Vec::new();
    let mut j: usize = 0;
    while j < required.len()
        invariant
            j <= required.len(),
            keys_sorted(pairs(wanted@)),
            first_required_error(required@, 0) == first_required_error(required@, j as int),
            fold_inputs(inputs@, 0, Map::empty()) == Ok::<Map<Seq<char>, DigestView>, BypassView>(m),
            forall|p: Seq<char>|
                as_map(pairs(wanted@)).contains_key(p) <==> exists|k: int| 0 <= k < j && ok_is(#[trigger] required@[k], p),
        decreases required.len() - j,
    {
        match &required[j] {
            Err(e) => {
                return Err(e.clone_reason());
            },
            Ok(p) => {
                let ghost before = as_map(pairs(wanted@));
                upsert(&mut wanted, p.clone(), true);
                assert forall|x: Seq<char>| as_map(pairs(wanted@)).contains_key(x)
                    <==> exists|k: int| 0 <= k < j + 1 && ok_is(#[trigger] required@[k], x) by {
                    if x == p@ {
                        assert(ok_is(required@[j as int], x));
                    }
                    if exists|k: int| 0 <= k < j + 1 && ok_is(#[trigger] required@[k], x) {
                        let k = choose|k: int| 0 <= k < j + 1 && ok_is(#[trigger] required@[k], x);
                        if k < j {
                            assert(before.contains_key(x));
                        }
                    }
                    if before.contains_key(x) {
                        let k = choose|k: int| 0 <= k < j && ok_is(#[trigger] required@[k], x);
                        assert(0 <= k < j + 1);
                    }
                }
            },
        }
        j = j + 1;
    }
    assert forall|p: Seq<char>| as_map(pairs(wanted@)).contains_key(p) <==> required_set(required@).contains(p) by {}
    let mut w: usize = 0;
    while w < wanted.len()
        invariant
            w <= wanted.len(),
            keys_sorted(pairs(wanted@)),
            keys_sorted(pairs(acc@)),
            m == digest_map(acc@),
            fold_inputs(inputs@, 0, Map::empty()) == Ok::<Map<Seq<char>, DigestView>, BypassView>(m),
            first_required_error(required@, 0) is None,
            forall|p: Seq<char>| as_map(pairs(wanted@)).contains_key(p) <==> required_set(required@).contains(p),
            forall|k: int| 0 <= k < w ==> m.contains_key(#[trigger] wanted@[k].0@),
        decreases wanted.len() - w,
    {
        match find_key(&acc, wanted[w].0.as_str()) {
            Ok(i) => {
                assert(pairs(acc@)[i as int].0 == wanted@[w as int].0@);
            },
            Err(pos) => {
                proof {
                    lemma_absent(pairs(acc@), wanted@[w as int].0@, pos as int);
                    let key = wanted@[w as int].0@;
                    assert(!m.contains_key(key));
                    assert(pairs(wanted@)[w as int].0 == key);
                    assert(as_map(pairs(wanted@)).contains_key(key));
                    assert(required_set(required@).contains(key));
                    assert(!required_set(required@).subset_of(m.dom()));
                    crate::agent::keyed::lemma_sorted_lists(pairs(wanted@));
                    let p = wanted@[w as int].0@;
                    assert(pairs(wanted@)[w as int] == (p, wanted@[w as int].1));
                    assert(pairs(wanted@).contains((p, wanted@[w as int].1)));
                    assert forall|q: Seq<char>| required_set(required@).contains(q) && !m.contains_key(q) implies q == p || text_less(p, q) by {
                        assert(as_map(pairs(wanted@)).contains_key(q));
                        let k = choose|k: int| 0 <= k < pairs(wanted@).len() && pairs(wanted@)[k].0 == q;
                        if k < w {
                            assert(wanted@[k].0@ == q);
                        } else if k > w {
                            assert(text_less(pairs(wanted@)[w as int].0, pairs(wanted@)[k].0));
                        }
                    }
                }
                return Err(CcBypassReason::MissingRequiredInput(wanted[w].0.clone()));
            },
        }
        w = w + 1;
    }
    assert forall|p: Seq<char>| required_set(required@).contains(p) implies m.contains_key(p) by {
        assert(as_map(pairs(wanted@)).contains_key(p));
        let k = choose|k: int| 0 <= k < pairs(wanted@).len() && pairs(wanted@)[k].0 == p;
        assert(wanted@[k].0@ == p);
    }
    Ok(acc)
}

/// Whether `out` lists the paths of `paths` in text order, each once.
pub open spec fn ordered_paths(out: Seq<String>, paths: Set<Seq<char>>) -> bool {
    &&& forall|i: int, j: int| 0 <= i < j < out.len() ==> text_less(#[trigger] out[i]@, #[trigger] out[j]@)
    &&& forall|p: Seq<char>| (exists|i: int| 0 <= i < out.len() && #[trigger] out[i]@ == p) <==> paths.contains(p)
}

/// The inputs a prediction records: the context inputs' normalized paths,
/// ordered and each once; refused at the first path that could not be
/// normalized.
pub fn prediction_inputs(normalized: &Vec<Result<String, CcBypassReason>>) -> (r: Result<Vec<String>, CcBypassReason>)
    ensures
        match first_required_error(normalized@, 0) {
            Some(e) => r matches Err(x) && x@ == e,
            None => r matches Ok(out) && ordered_paths(out@, required_set(normalized@)),
        },
{
    let mut paths: Vec<(String, bool)> = Vec::new();
    let mut j: usize = 0;
    while j < normalized.len()
        invariant
            j <= normalized.len(),
            keys_sorted(pairs(paths@)),
            first_required_error(normalized@, 0) == first_required_error(normalized@, j as int),
            forall|p: Seq<char>|
                as_map(pairs(paths@)).contains_key(p) <==> exists|k: int| 0 <= k < j && ok_is(#[trigger] normalized@[k], p),
        decreases normalized.len() - j,
    {
        match &normalized[j] {
            Err(e) => {
                return Err(e.clone_reason());
            },
            Ok(p) => {
                let ghost before = as_map(pairs(paths@));
                upsert(&mut paths, p.clone(), true);
                assert forall|x: Seq<char>| as_map(pairs(paths@)).contains_key(x)
                    <==> exists|k: int| 0 <= k < j + 1 && ok_is(#[trigger] normalized@[k], x) by {
                    if x == p@ {
                        assert(ok_is(normalized@[j as int], x));
                    }
                    if exists|k: int| 0 <= k < j + 1 && ok_is(#[trigger] normalized@[k], x) {
                        let k = choose|k: int| 0 <= k < j + 1 && ok_is(#[trigger] normalized@[k], x);
                        if k < j {
                            assert(before.contains_key(x));
                        }
                    }
                    if before.contains_key(x) {
                        let k = choose|k: int| 0 <= k < j && ok_is(#[trigger] normalized@[k], x);
                        assert(0 <= k < j + 1);
                    }
                }
            },
        }
        j = j + 1;
    }
    assert(first_required_error(normalized@, normalized.len() as int) is None);
    assert(first_required_error(normalized@, 0) is None);
    let mut out: Vec<String> = Vec::new();
    let mut i: usize = 0;
    while i < paths.len()
        invariant
            i <= paths.len(),
            out.len() == i,
            forall|k: int| 0 <= k < i ==> (#[trigger] out@[k])@ == paths@[k].0@,
            keys_sorted(pairs(paths@)),
            first_required_error(normalized@, 0) is None,
            forall|p: Seq<char>|
                as_map(pairs(paths@)).contains_key(p) <==> exists|k: int| 0 <= k < normalized.len() && ok_is(#[trigger] normalized@[k], p),
        decreases paths.len() - i,
    {
        out.push(paths[i].0.clone());
        i = i + 1;
    }
    assert forall|a: int, b: int| 0 <= a < b < out.len() implies text_less(#[trigger] out@[a]@, #[trigger] out@[b]@) by {
        assert(pairs(paths@)[a].0 == out@[a]@ && pairs(paths@)[b].0 == out@[b]@);
    }
    assert forall|p: Seq<char>| (exists|i: int| 0 <= i < out.len() && #[trigger] out@[i]@ == p) <==> required_set(normalized@).contains(p) by {
        if exists|i: int| 0 <= i < out.len() && #[trigger] out@[i]@ == p {
            let i = choose|i: int| 0 <= i < out.len() && #[trigger] out@[i]@ == p;
            assert(pairs(paths@)[i].0 == p);
            assert(as_map(pairs(paths@)).contains_key(p));
        }
        if required_set(normalized@).contains(p) {
            assert(as_map(pairs(paths@)).contains_key(p));
            let i = choose|i: int| 0 <= i < pairs(paths@).len() && pairs(paths@)[i].0 == p;
            assert(out@[i]@ == p);
        }
    }
    assert(ordered_paths(out@, required_set(normalized@)));
    Ok(out)
}

} // verus!
