//! The walk of prefetched output trees, as a state machine that the caller
//! drives one step at a time: directories are taken a wave at a time in
//! digest order, each directory's files and subdirectories are queued for
//! download, downloads go out in batches, and the walk stops at the
//! directory limit. The caller parses each directory the walk asks for and
//! downloads each batch it hands out.
use vstd::prelude::*;
use crate::agent::digest::{CacheDigest, DigestView, digests, digest_less, digest_before, same_digest, contains_digest, lemma_digest_order};
use crate::agent::validate::{DirectoryListing, MAX_PREFETCH_DIRECTORY_OBJECTS};

verus! {

/// Most blobs queued before a batch is downloaded.
pub const MAX_PREFETCH_OBJECTS_PER_WAVE: usize = 100000;

/// Whether digests are strictly ordered, as a set's or a map's keys are.
pub open spec fn strictly_sorted(s: Seq<DigestView>) -> bool {
    forall|i: int, j: int| 0 <= i < j < s.len() ==> digest_less(#[trigger] s[i], #[trigger] s[j])
}

/// Add `d` to digests kept strictly ordered, as a set does.
fn insert_digest(v: &mut Vec<CacheDigest>, d: &CacheDigest)
    requires
        strictly_sorted(digests(old(v)@)),
    ensures
        strictly_sorted(digests(final(v)@)),
        forall|x: DigestView| digests(final(v)@).contains(x) <==> (x == d@ || digests(old(v)@).contains(x)),
{
    let ghost ps = digests(v@);
    let ghost key = d@;
    let mut pos: usize = 0;
    while pos < v.len() && digest_before(&v[pos], d)
        invariant
            pos <= v.len(),
            ps == digests(v@),
            key == d@,
            forall|k: int| 0 <= k < pos ==> digest_less(#[trigger] ps[k], key),
        decreases v.len() - pos,
    {
        pos = pos + 1;
    }
    if pos < v.len() && same_digest(&v[pos], d) {
        assert(ps[pos as int] == key);
        return;
    }
    assert forall|k: int| pos <= k < ps.len() implies digest_less(key, #[trigger] ps[k]) by {
        lemma_digest_order(key, ps[pos as int], ps[k]);
        lemma_digest_order(ps[pos as int], key, ps[k]);
        if k > pos {
            assert(digest_less(ps[pos as int], ps[k]));
        }
    }
    v.insert(pos, d.clone());
    let ghost out = digests(v@);
    assert(out == ps.insert(pos as int, key));
    assert forall|i: int, j: int| 0 <= i < j < out.len() implies digest_less(#[trigger] out[i], #[trigger] out[j]) by {
        if j < pos {
        } else if i > pos {
            assert(out[i] == ps[i - 1]);
            assert(out[j] == ps[j - 1]);
        } else if i == pos {
            assert(out[j] == ps[j - 1]);
        } else if j == pos {
        } else {
            assert(out[j] == ps[j - 1]);
            lemma_digest_order(ps[i], key, ps[j - 1]);
        }
    }
    assert forall|x: DigestView| out.contains(x) <==> (x == key || ps.contains(x)) by {
        if out.contains(x) {
            let m = choose|m: int| 0 <= m < out.len() && #[trigger] out[m] == x;
            if m < pos {
                assert(ps[m] == x);
            } else if m > pos {
                assert(ps[m - 1] == x);
            }
        }
        if x == key {
            assert(out[pos as int] == x);
        }
        if ps.contains(x) {
            let m = choose|m: int| 0 <= m < ps.len() && #[trigger] ps[m] == x;
            if m < pos {
                assert(out[m] == x);
            } else {
                assert(out[m + 1] == x);
            }
        }
    }
}

/// Take `d` out of digests kept strictly ordered.
fn remove_digest(v: &Vec<CacheDigest>, d: &CacheDigest) -> (r: Vec<CacheDigest>)
    requires
        strictly_sorted(digests(v@)),
    ensures
        strictly_sorted(digests(r@)),
        forall|x: DigestView| digests(r@).contains(x) <==> (digests(v@).contains(x) && x != d@),
{
    let ghost ps = digests(v@);
    let mut out: Vec<CacheDigest> = Vec::new();
    let mut i: usize = 0;
    while i < v.len()
        invariant
            i <= v.len(),
            ps == digests(v@),
            strictly_sorted(ps),
            strictly_sorted(digests(out@)),
            forall|m: int| 0 <= m < out.len() ==> exists|k: int| 0 <= k < i && ps[k] == (#[trigger] digests(out@)[m]),
            forall|x: DigestView| digests(out@).contains(x) <==> (ps.take(i as int).contains(x) && x != d@),
        decreases v.len() - i,
    {
        let ghost before = digests(out@);
        if !same_digest(&v[i], d) {
            out.push(v[i].clone());
            assert(digests(out@) == before.push(ps[i as int]));
            assert forall|a: int, b: int| 0 <= a < b < digests(out@).len() implies digest_less(#[trigger] digests(out@)[a], #[trigger] digests(out@)[b]) by {
                if b == before.len() {
                    let k = choose|k: int| 0 <= k < i && #[trigger] ps[k] == before[a];
                    assert(digest_less(ps[k], ps[i as int]));
                }
            }
            assert forall|m: int| 0 <= m < out.len() implies exists|k: int| 0 <= k < i + 1 && ps[k] == (#[trigger] digests(out@)[m]) by {
                if m == before.len() {
                    assert(ps[i as int] == digests(out@)[m]);
                } else {
                    let k = choose|k: int| 0 <= k < i && #[trigger] ps[k] == before[m];
                    assert(ps[k] == digests(out@)[m]);
                }
            }
        }
        assert(ps.take(i + 1) == ps.take(i as int).push(ps[i as int]));
        assert forall|x: DigestView| digests(out@).contains(x) <==> (ps.take(i + 1).contains(x) && x != d@) by {
            let now = digests(out@);
            if now.contains(x) {
                let m = choose|m: int| 0 <= m < now.len() && #[trigger] now[m] == x;
                if m < before.len() {
                    assert(before[m] == x);
                    assert(before.contains(x));
                    let k = choose|k: int| 0 <= k < i && #[trigger] ps.take(i as int)[k] == x;
                    assert(ps.take(i + 1)[k] == x);
                } else {
                    assert(x == ps[i as int]);
                    assert(ps.take(i + 1)[i as int] == x);
                }
            }
            if ps.take(i + 1).contains(x) && x != d@ {
                let k = choose|k: int| 0 <= k < i + 1 && #[trigger] ps.take(i + 1)[k] == x;
                if k < i {
                    assert(ps.take(i as int)[k] == x);
                    assert(before.contains(x));
                    let m = choose|m: int| 0 <= m < before.len() && #[trigger] before[m] == x;
                    assert(now[m] == x);
                } else {
                    assert(x == ps[i as int]);
                    assert(now[now.len() - 1] == x);
                }
            }
        }
        i = i + 1;
    }
    assert(ps.take(v.len() as int) == ps);
    out
}

/// Whether two digests are equal.
pub open spec fn same_digest_view(a: DigestView, b: DigestView) -> bool {
    a == b
}

/// Blobs queued for the next download, or none where `d` is already
/// verified or queued.
pub open spec fn queued(verified: Seq<DigestView>, next: Seq<DigestView>, d: DigestView) -> Seq<DigestView> {
    if verified.contains(d) || next.contains(d) { next } else { next.push(d) }
}

/// A walk as plain values.
pub ghost struct WalkView {
    /// Blobs downloaded and verified.
    pub verified: Seq<DigestView>,
    /// Blobs queued for the next download.
    pub next: Seq<DigestView>,
    /// Directories taken so far.
    pub seen: Seq<DigestView>,
    /// Directories of this wave still to take, in digest order.
    pub pending: Seq<DigestView>,
    /// Directories found for the next wave, in digest order.
    pub following: Seq<DigestView>,
    /// Files of the directory being read still to queue.
    pub files: Seq<DigestView>,
    /// Subdirectories of the directory being read still to queue.
    pub children: Seq<DigestView>,
}

/// What the walk is told.
#[derive(Debug, Clone)]
pub enum WalkEvent {
    /// Go on.
    Proceed,
    /// The directory the walk asked for, parsed; none where it could not be
    /// read or parsed.
    Parsed(Option<DirectoryListing>),
    /// The batch the walk handed out was downloaded: these blobs of it
    /// arrived verified.
    Downloaded(Vec<CacheDigest>),
}

/// An event as plain values.
pub ghost enum WalkEventView {
    Proceed,
    Parsed(Option<(Seq<DigestView>, Seq<DigestView>)>),
    Downloaded(Seq<DigestView>),
}

impl View for WalkEvent {
    type V = WalkEventView;

    open spec fn view(&self) -> WalkEventView {
        match self {
            WalkEvent::Proceed => WalkEventView::Proceed,
            WalkEvent::Parsed(Some(l)) => WalkEventView::Parsed(Some((digests(l.files@), digests(l.directories@)))),
            WalkEvent::Parsed(None) => WalkEventView::Parsed(None),
            WalkEvent::Downloaded(ds) => WalkEventView::Downloaded(digests(ds@)),
        }
    }
}

/// What the caller does next.
#[derive(Debug, Clone)]
pub enum WalkAction {
    /// Nothing outside the walk: step again.
    Continue,
    /// Parse the verified directory object of this digest.
    Parse(CacheDigest),
    /// Download these blobs.
    Download(Vec<CacheDigest>),
    /// The walk is over.
    Done,
}

/// An action as plain values.
pub ghost enum WalkActionView {
    Continue,
    Parse(DigestView),
    Download(Seq<DigestView>),
    Done,
}

impl View for WalkAction {
    type V = WalkActionView;

    open spec fn view(&self) -> WalkActionView {
        match self {
            WalkAction::Continue => WalkActionView::Continue,
            WalkAction::Parse(d) => WalkActionView::Parse(d@),
            WalkAction::Download(ds) => WalkActionView::Download(digests(ds@)),
            WalkAction::Done => WalkActionView::Done,
        }
    }
}

/// Whether `s` and `t` hold the same digests.
pub open spec fn same_members(s: Seq<DigestView>, t: Seq<DigestView>) -> bool {
    forall|x: DigestView| s.contains(x) <==> t.contains(x)
}

/// Whether `w` and action `a` follow from walk `v` on event `e`. Directory
/// sets are kept in digest order, so their members fix them.
pub open spec fn walk_step(v: WalkView, e: WalkEventView, w: WalkView, a: WalkActionView) -> bool {
    match e {
        WalkEventView::Parsed(listing) => {
            &&& a == WalkActionView::Continue
            &&& w == (WalkView {
                files: match listing { Some(l) => l.0, None => Seq::empty() },
                children: match listing { Some(l) => l.1, None => Seq::empty() },
                ..v
            })
        },
        WalkEventView::Downloaded(arrived) => {
            &&& a == WalkActionView::Continue
            &&& w == (WalkView { verified: v.verified + arrived, next: Seq::empty(), ..v })
        },
        WalkEventView::Proceed => if v.next.len() >= MAX_PREFETCH_OBJECTS_PER_WAVE {
            // A full batch goes out first.
            a == WalkActionView::Download(v.next) && w == v
        } else if v.files.len() > 0 {
            a == WalkActionView::Continue && w == (WalkView {
                next: queued(v.verified, v.next, v.files[0]),
                files: v.files.drop_first(),
                ..v
            })
        } else if v.children.len() > 0 {
            let c = v.children[0];
            let known = v.seen.contains(c) || v.following.contains(c);
            &&& a == WalkActionView::Continue
            &&& if known || v.seen.len() + v.following.len() < MAX_PREFETCH_DIRECTORY_OBJECTS {
                // Queued for the next wave and for download.
                &&& w.verified == v.verified && w.seen == v.seen && w.pending == v.pending && w.files == v.files
                &&& w.next == queued(v.verified, v.next, c)
                &&& w.children == v.children.drop_first()
                &&& strictly_sorted(w.following)
                &&& same_members(w.following, if known { v.following } else { v.following.push(c) })
            } else {
                // The tree is too large: this wave and the next are dropped.
                w == (WalkView { pending: Seq::empty(), following: Seq::empty(), children: Seq::empty(), ..v })
            }
        } else if v.pending.len() > 0 {
            let d = v.pending[0];
            &&& w.verified == v.verified && w.next == v.next && w.files == v.files && w.children == v.children
            &&& if v.seen.contains(d) {
                &&& a == WalkActionView::Continue
                &&& w.seen == v.seen && w.pending == v.pending.drop_first()
                &&& strictly_sorted(w.following) && same_members(w.following, v.following.filter(|x: DigestView| x != d))
            } else if v.seen.len() + 1 > MAX_PREFETCH_DIRECTORY_OBJECTS {
                a == WalkActionView::Continue && w.seen == v.seen.push(d) && w.pending == Seq::<DigestView>::empty()
                    && w.following == Seq::<DigestView>::empty()
            } else {
                &&& a == WalkActionView::Parse(d)
                &&& w.seen == v.seen.push(d) && w.pending == v.pending.drop_first()
                &&& strictly_sorted(w.following) && same_members(w.following, v.following.filter(|x: DigestView| x != d))
            }
        } else if v.next.len() > 0 {
            // The end of a wave: what is queued goes out.
            a == WalkActionView::Download(v.next) && w == v
        } else if v.following.len() > 0 {
            a == WalkActionView::Continue && w == (WalkView { pending: v.following, following: Seq::empty(), ..v })
        } else {
            a == WalkActionView::Done && w == v
        }
    }
}

/// The walk of output trees under way.
pub struct PrefetchWalk {
    verified: Vec<CacheDigest>,
    next: Vec<CacheDigest>,
    seen: Vec<CacheDigest>,
    pending: Vec<CacheDigest>,
    following: Vec<CacheDigest>,
    files: Vec<CacheDigest>,
    children: Vec<CacheDigest>,
}

impl View for PrefetchWalk {
    type V = WalkView;

    closed spec fn view(&self) -> WalkView {
        WalkView {
            verified: digests(self.verified@),
            next: digests(self.next@),
            seen: digests(self.seen@),
            pending: digests(self.pending@),
            following: digests(self.following@),
            files: digests(self.files@),
            children: digests(self.children@),
        }
    }
}

fn copy_digests(ds: &Vec<CacheDigest>) -> (r: Vec<CacheDigest>)
    ensures
        digests(r@) == digests(ds@),
{
    let mut out: Vec<CacheDigest> = Vec::new();
    let mut i: usize = 0;
    while i < ds.len()
        invariant
            i <= ds.len(),
            digests(out@) == digests(ds@).take(i as int),
        decreases ds.len() - i,
    {
        let ghost before = out@;
        out.push(ds[i].clone());
        assert(digests(out@) == digests(before).push(ds@[i as int]@));
        assert(digests(ds@).take(i + 1) == digests(ds@).take(i as int).push(ds@[i as int]@));
        i = i + 1;
    }
    assert(digests(ds@).take(ds.len() as int) == digests(ds@));
    out
}

fn rest_of(ds: &Vec<CacheDigest>) -> (r: Vec<CacheDigest>)
    requires
        ds.len() > 0,
    ensures
        digests(r@) == digests(ds@).drop_first(),
{
    let mut out: Vec<CacheDigest> = Vec::new();
    let mut i: usize = 1;
    while i < ds.len()
        invariant
            1 <= i <= ds.len(),
            digests(out@) == digests(ds@).subrange(1, i as int),
        decreases ds.len() - i,
    {
        let ghost before = out@;
        out.push(ds[i].clone());
        assert(digests(out@) == digests(before).push(ds@[i as int]@));
        assert(digests(ds@).subrange(1, i + 1) == digests(ds@).subrange(1, i as int).push(ds@[i as int]@));
        i = i + 1;
    }
    out
}

fn queue(verified: &Vec<CacheDigest>, next: &mut Vec<CacheDigest>, d: &CacheDigest)
    ensures
        digests(final(next)@) == queued(digests(verified@), digests(old(next)@), d@),
{
    if contains_digest(verified.as_slice(), d) || contains_digest(next.as_slice(), d) {
        return;
    }
    let ghost before = digests(next@);
    next.push(d.clone());
    assert(digests(next@) == before.push(d@));
}

impl PrefetchWalk {
    /// Whether the walk's directory sets are kept in digest order.
    pub open spec fn wf(&self) -> bool {
        strictly_sorted(self@.pending) && strictly_sorted(self@.following)
    }

    /// Begin walking the output trees rooted at `roots`, with `verified`
    /// downloaded and `next` queued already.
    pub fn new(verified: Vec<CacheDigest>, next: Vec<CacheDigest>, roots: &Vec<CacheDigest>) -> (r: Self)
        ensures
            r.wf(),
            r@.verified == digests(verified@),
            r@.next == digests(next@),
            r@.seen.len() == 0 && r@.following.len() == 0 && r@.files.len() == 0 && r@.children.len() == 0,
            same_members(r@.pending, digests(roots@)),
    {
        let mut pending: Vec<CacheDigest> = Vec::new();
        let mut i: usize = 0;
        while i < roots.len()
            invariant
                i <= roots.len(),
                strictly_sorted(digests(pending@)),
                same_members(digests(pending@), digests(roots@).take(i as int)),
            decreases roots.len() - i,
        {
            let ghost before = digests(pending@);
            insert_digest(&mut pending, &roots[i]);
            assert(digests(roots@).take(i + 1) == digests(roots@).take(i as int).push(roots@[i as int]@));
            assert forall|x: DigestView| digests(pending@).contains(x) <==> digests(roots@).take(i + 1).contains(x) by {
                let t = digests(roots@).take(i as int);
                if t.contains(x) {
                    let k = choose|k: int| 0 <= k < t.len() && #[trigger] t[k] == x;
                    assert(digests(roots@).take(i + 1)[k] == x);
                }
                if x == roots@[i as int]@ {
                    assert(digests(roots@).take(i + 1)[i as int] == x);
                }
                if digests(roots@).take(i + 1).contains(x) && x != roots@[i as int]@ {
                    let k = choose|k: int| 0 <= k < i + 1 && #[trigger] digests(roots@).take(i + 1)[k] == x;
                    assert(t[k] == x);
                }
            }
            i = i + 1;
        }
        assert(digests(roots@).take(roots.len() as int) == digests(roots@));
        let empty: Vec<CacheDigest> = Vec::new();
        assert(strictly_sorted(digests(empty@)));
        PrefetchWalk { verified, next, seen: Vec::new(), pending, following: Vec::new(), files: Vec::new(), children: Vec::new() }
    }

    /// The blobs downloaded and verified so far.
    pub fn verified(&self) -> (r: Vec<CacheDigest>)
        ensures
            digests(r@) == self@.verified,
    {
        copy_digests(&self.verified)
    }
}

/// One step of the walk: the walk after the event, and what the caller does
/// next.
pub fn prefetch_step(state: &PrefetchWalk, event: &WalkEvent) -> (r: (PrefetchWalk, WalkAction))
    requires
        state.wf(),
    ensures
        r.0.wf(),
        walk_step(state@, event@, r.0@, r.1@),
{
    let mut w = PrefetchWalk {
        verified: copy_digests(&state.verified),
        next: copy_digests(&state.next),
        seen: copy_digests(&state.seen),
        pending: copy_digests(&state.pending),
        following: copy_digests(&state.following),
        files: copy_digests(&state.files),
        children: copy_digests(&state.children),
    };
    assert(w@ == state@);
    match event {
        WalkEvent::Parsed(listing) => {
            match listing {
                Some(l) => {
                    w.files = copy_digests(&l.files);
                    w.children = copy_digests(&l.directories);
                },
                None => {
                    w.files = Vec::new();
                    w.children = Vec::new();
                    assert(digests(w.files@) == Seq::<DigestView>::empty());
                    assert(digests(w.children@) == Seq::<DigestView>::empty());
                },
            }
            return (w, WalkAction::Continue);
        },
        WalkEvent::Downloaded(arrived) => {
            let mut verified = copy_digests(&state.verified);
            let mut j: usize = 0;
            let ghost start = digests(verified@);
            while j < arrived.len()
                invariant
                    j <= arrived.len(),
                    digests(verified@) == start + digests(arrived@).take(j as int),
                decreases arrived.len() - j,
            {
                let ghost before = verified@;
                verified.push(arrived[j].clone());
                assert(digests(verified@) == digests(before).push(arrived@[j as int]@));
                assert(digests(arrived@).take(j + 1) == digests(arrived@).take(j as int).push(arrived@[j as int]@));
                j = j + 1;
            }
            assert(digests(arrived@).take(arrived.len() as int) == digests(arrived@));
            w.verified = verified;
            w.next = Vec::new();
            assert(digests(w.next@) == Seq::<DigestView>::empty());
            return (w, WalkAction::Continue);
        },
        WalkEvent::Proceed => {},
    }
    if w.next.len() >= MAX_PREFETCH_OBJECTS_PER_WAVE {
        let batch = copy_digests(&w.next);
        return (w, WalkAction::Download(batch));
    }
    if w.files.len() > 0 {
        let f = w.files[0].clone();
        queue(&w.verified, &mut w.next, &f);
        w.files = rest_of(&w.files);
        return (w, WalkAction::Continue);
    }
    if w.children.len() > 0 {
        let c = w.children[0].clone();
        let known = contains_digest(w.seen.as_slice(), &c) || contains_digest(w.following.as_slice(), &c);
        if known || (w.seen.len() < MAX_PREFETCH_DIRECTORY_OBJECTS && w.following.len() < MAX_PREFETCH_DIRECTORY_OBJECTS - w.seen.len()) {
            if !known {
                insert_digest(&mut w.following, &c);
            }
            proof {
                if !known {
                    assert forall|x: DigestView| digests(w.following@).contains(x) <==> digests(state.following@).push(c@).contains(x) by {
                        if digests(state.following@).push(c@).contains(x) && x != c@ {
                            let k = choose|k: int| 0 <= k < state.following.len() + 1 && #[trigger] digests(state.following@).push(c@)[k] == x;
                            assert(digests(state.following@)[k] == x);
                        }
                        if digests(state.following@).contains(x) {
                            let k = choose|k: int| 0 <= k < state.following.len() && #[trigger] digests(state.following@)[k] == x;
                            assert(digests(state.following@).push(c@)[k] == x);
                        }
                        if x == c@ {
                            assert(digests(state.following@).push(c@)[state.following.len() as int] == x);
                        }
                    }
                }
            }
            queue(&w.verified, &mut w.next, &c);
            w.children = rest_of(&w.children);
            return (w, WalkAction::Continue);
        }
        w.pending = Vec::new();
        w.following = Vec::new();
        w.children = Vec::new();
        assert(digests(w.pending@) == Seq::<DigestView>::empty());
        assert(digests(w.following@) == Seq::<DigestView>::empty());
        assert(digests(w.children@) == Seq::<DigestView>::empty());
        return (w, WalkAction::Continue);
    }
    if w.pending.len() > 0 {
        let d = w.pending[0].clone();
        if contains_digest(w.seen.as_slice(), &d) {
            w.pending = rest_of(&w.pending);
            w.following = remove_digest(&state.following, &d);
            proof { lemma_removed(digests(state.following@), digests(w.following@), d@); }
            assert(strictly_sorted(digests(w.pending@))) by {
                assert forall|i: int, j: int| 0 <= i < j < digests(w.pending@).len() implies digest_less(#[trigger] digests(w.pending@)[i], #[trigger] digests(w.pending@)[j]) by {
                    assert(digests(w.pending@)[i] == digests(state.pending@)[i + 1]);
                    assert(digests(w.pending@)[j] == digests(state.pending@)[j + 1]);
                }
            }
            return (w, WalkAction::Continue);
        }
        let ghost seen_before = digests(w.seen@);
        w.seen.push(d.clone());
        assert(digests(w.seen@) == seen_before.push(d@));
        if w.seen.len() > MAX_PREFETCH_DIRECTORY_OBJECTS {
            w.pending = Vec::new();
            w.following = Vec::new();
            assert(digests(w.pending@) == Seq::<DigestView>::empty());
            assert(digests(w.following@) == Seq::<DigestView>::empty());
            return (w, WalkAction::Continue);
        }
        w.pending = rest_of(&w.pending);
        w.following = remove_digest(&state.following, &d);
        proof { lemma_removed(digests(state.following@), digests(w.following@), d@); }
        assert(strictly_sorted(digests(w.pending@))) by {
            assert forall|i: int, j: int| 0 <= i < j < digests(w.pending@).len() implies digest_less(#[trigger] digests(w.pending@)[i], #[trigger] digests(w.pending@)[j]) by {
                assert(digests(w.pending@)[i] == digests(state.pending@)[i + 1]);
                assert(digests(w.pending@)[j] == digests(state.pending@)[j + 1]);
            }
        }
        return (w, WalkAction::Parse(d));
    }
    if w.next.len() > 0 {
        let batch = copy_digests(&w.next);
        return (w, WalkAction::Download(batch));
    }
    if w.following.len() > 0 {
        w.pending = copy_digests(&state.following);
        w.following = Vec::new();
        assert(digests(w.following@) == Seq::<DigestView>::empty());
        return (w, WalkAction::Continue);
    }
    (w, WalkAction::Done)
}

proof fn lemma_removed(before: Seq<DigestView>, after: Seq<DigestView>, d: DigestView)
    requires
        forall|x: DigestView| after.contains(x) <==> (before.contains(x) && x != d),
    ensures
        same_members(after, before.filter(|x: DigestView| x != d)),
{
    let f = |x: DigestView| x != d;
    assert forall|x: DigestView| after.contains(x) <==> before.filter(f).contains(x) by {
        if before.contains(x) && x != d {
            let k = choose|k: int| 0 <= k < before.len() && #[trigger] before[k] == x;
            before.lemma_filter_contains(f, k);
        }
        if before.filter(f).contains(x) {
            let k = choose|k: int| 0 <= k < before.filter(f).len() && #[trigger] before.filter(f)[k] == x;
            before.lemma_filter_pred(f, k);
            lemma_filtered_member(before, f, k);
        }
    }
}

proof fn lemma_filtered_member(s: Seq<DigestView>, f: spec_fn(DigestView) -> bool, k: int)
    requires
        0 <= k < s.filter(f).len(),
    ensures
        s.contains(s.filter(f)[k]),
    decreases s.len(),
{
    reveal_with_fuel(Seq::<DigestView>::filter, 1);
    if s.len() > 0 {
        let rest = s.drop_last().filter(f);
        if f(s.last()) && k == rest.len() {
            assert(s.filter(f)[k] == s.last());
            assert(s[s.len() - 1] == s.last());
        } else {
            assert(s.filter(f)[k] == rest[k]);
            lemma_filtered_member(s.drop_last(), f, k);
            let m = choose|m: int| 0 <= m < s.drop_last().len() && #[trigger] s.drop_last()[m] == rest[k];
            assert(s[m] == rest[k]);
        }
    }
}

/// Whether no queued blob is one already verified.
pub open spec fn queue_fresh(v: WalkView) -> bool {
    forall|x: DigestView| v.next.contains(x) ==> !v.verified.contains(x)
}

proof fn lemma_queued_fresh(verified: Seq<DigestView>, next: Seq<DigestView>, d: DigestView)
    requires
        forall|x: DigestView| next.contains(x) ==> !verified.contains(x),
    ensures
        forall|x: DigestView| queued(verified, next, d).contains(x) ==> !verified.contains(x),
{
    assert forall|x: DigestView| queued(verified, next, d).contains(x) implies !verified.contains(x) by {
        if !(verified.contains(d) || next.contains(d)) {
            let q = next.push(d);
            let k = choose|k: int| 0 <= k < q.len() && #[trigger] q[k] == x;
            if k < next.len() {
                assert(next[k] == x);
            }
        }
    }
}

/// A walk never downloads a blob it already verified: where no queued blob
/// is verified, every step keeps it so, and no batch it hands out holds a
/// verified blob.
pub proof fn lemma_downloads_skip_verified(v: WalkView, e: WalkEventView, w: WalkView, a: WalkActionView)
    requires
        queue_fresh(v),
        walk_step(v, e, w, a),
    ensures
        queue_fresh(w),
        a matches WalkActionView::Download(ds) ==> forall|x: DigestView| ds.contains(x) ==> !w.verified.contains(x),
{
    match e {
        WalkEventView::Proceed => {
            if v.next.len() < MAX_PREFETCH_OBJECTS_PER_WAVE && v.files.len() > 0 {
                lemma_queued_fresh(v.verified, v.next, v.files[0]);
            } else if v.next.len() < MAX_PREFETCH_OBJECTS_PER_WAVE && v.children.len() > 0 {
                lemma_queued_fresh(v.verified, v.next, v.children[0]);
            }
        },
        _ => {},
    }
}

/// Over a whole walk, whatever the caller hands back: where no blob queued
/// at the start was verified, no batch the walk ever hands out holds a blob
/// verified by then. `states[k + 1]` and `actions[k]` are what step `k`
/// made of `states[k]` and `events[k]`.
pub proof fn lemma_whole_walk(states: Seq<WalkView>, events: Seq<WalkEventView>, actions: Seq<WalkActionView>, k: int)
    requires
        states.len() == events.len() + 1,
        actions.len() == events.len(),
        queue_fresh(states[0]),
        forall|j: int| 0 <= j < events.len() ==> walk_step(states[j], #[trigger] events[j], states[j + 1], actions[j]),
        0 <= k < events.len(),
    ensures
        queue_fresh(states[k + 1]),
        actions[k] matches WalkActionView::Download(ds) ==> forall|x: DigestView| ds.contains(x) ==> !states[k + 1].verified.contains(x),
    decreases k,
{
    if k > 0 {
        lemma_whole_walk(states, events, actions, k - 1);
    }
    assert(walk_step(states[k], events[k], states[k + 1], actions[k]));
    lemma_downloads_skip_verified(states[k], events[k], states[k + 1], actions[k]);
}

} // verus!
