//! The decisions of one remote blob fetch, as a state machine that the
//! caller drives: the blobs the local store already holds verified are kept,
//! the others are first gathered into blob packs, and what no pack brought is
//! fetched one by one. The caller performs each action (locking and looking
//! up a chunk, downloading a pack within the budget, fetching blobs) and hands
//! back what came of it.
use vstd::prelude::*;
use crate::agent::digest::{CacheDigest, DigestView, same_digest};
use crate::agent::blob_fetch::{digest_views, BlobLookup, LookupView, lookup_views};

verus! {

/// Where one requested blob stands.
#[derive(Debug, Clone)]
pub enum BlobSlot {
    /// A verified copy is at this path.
    Verified(String),
    /// Still missing, and a candidate for a blob pack.
    Candidate,
    /// Still missing, and asked for in the blob pack under way.
    Asked,
    /// Still missing, to be fetched on its own.
    Pending,
    /// Given up: its first lookup or its own fetch failed.
    Dropped,
}

/// A slot as plain values.
pub ghost enum SlotView {
    Verified(Seq<char>),
    Candidate,
    Asked,
    Pending,
    Dropped,
}

impl View for BlobSlot {
    type V = SlotView;

    open spec fn view(&self) -> SlotView {
        match self {
            BlobSlot::Verified(p) => SlotView::Verified(p@),
            BlobSlot::Candidate => SlotView::Candidate,
            BlobSlot::Asked => SlotView::Asked,
            BlobSlot::Pending => SlotView::Pending,
            BlobSlot::Dropped => SlotView::Dropped,
        }
    }
}

/// What came of an action, for each blob it named: the path of a verified
/// copy, or none where there is none.
pub type Reports = Vec<(CacheDigest, Option<String>)>;

/// What the caller hands back.
#[derive(Debug, Clone)]
pub enum FetchEvent {
    /// The locked local lookups of a chunk of the pack candidates.
    Locked(Reports),
    /// No pack was fetched: no budget was left, or the remote refused or
    /// failed it.
    PackRefused,
    /// A pack came back: each blob the remote agreed to send, with where it
    /// was ingested. None agreed means the remote's cap was smaller than the
    /// chunk.
    PackArrived(Reports),
    /// The blobs fetched one by one.
    Fetched(Reports),
}

/// What the caller does next.
#[derive(Debug, Clone)]
pub enum FetchAction {
    /// Pick a chunk of these pack candidates, lock each and look it up again.
    LockChunk(Vec<CacheDigest>),
    /// Download these blobs as one pack, within the download budget.
    AskPack(Vec<CacheDigest>),
    /// Fetch these blobs one by one.
    FetchEach(Vec<CacheDigest>),
    /// Nothing is left to do.
    Done,
}

/// Reports as plain values.
pub open spec fn report_views(rs: Seq<(CacheDigest, Option<String>)>) -> Seq<(DigestView, Option<Seq<char>>)> {
    rs.map_values(|r: (CacheDigest, Option<String>)| (r.0@, match r.1 { Some(p) => Some(p@), None => None }))
}

/// An event as plain values.
pub ghost enum EventView {
    Locked(Seq<(DigestView, Option<Seq<char>>)>),
    PackRefused,
    PackArrived(Seq<(DigestView, Option<Seq<char>>)>),
    Fetched(Seq<(DigestView, Option<Seq<char>>)>),
}

impl View for FetchEvent {
    type V = EventView;

    open spec fn view(&self) -> EventView {
        match self {
            FetchEvent::Locked(rs) => EventView::Locked(report_views(rs@)),
            FetchEvent::PackRefused => EventView::PackRefused,
            FetchEvent::PackArrived(rs) => EventView::PackArrived(report_views(rs@)),
            FetchEvent::Fetched(rs) => EventView::Fetched(report_views(rs@)),
        }
    }
}

/// An action as plain values.
pub ghost enum ActionView {
    LockChunk(Seq<DigestView>),
    AskPack(Seq<DigestView>),
    FetchEach(Seq<DigestView>),
    Done,
}

impl View for FetchAction {
    type V = ActionView;

    open spec fn view(&self) -> ActionView {
        match self {
            FetchAction::LockChunk(ds) => ActionView::LockChunk(digest_views(ds@)),
            FetchAction::AskPack(ds) => ActionView::AskPack(digest_views(ds@)),
            FetchAction::FetchEach(ds) => ActionView::FetchEach(digest_views(ds@)),
            FetchAction::Done => ActionView::Done,
        }
    }
}

/// A fetch as plain values: the blobs asked for, and where each stands.
pub ghost struct FetchView {
    pub requested: Seq<DigestView>,
    pub slots: Seq<SlotView>,
}

/// One remote blob fetch under way.
pub struct FetchState {
    requested: Vec<CacheDigest>,
    slots: Vec<BlobSlot>,
}

impl View for FetchState {
    type V = FetchView;

    closed spec fn view(&self) -> FetchView {
        FetchView { requested: digest_views(self.requested@), slots: self.slots@.map_values(|s: BlobSlot| s@) }
    }
}

/// Whether no blob is asked for twice.
pub open spec fn distinct(ds: Seq<DigestView>) -> bool {
    forall|i: int, j: int| 0 <= i < ds.len() && 0 <= j < ds.len() && i != j ==> ds[i] != ds[j]
}

/// Whether a fetch is well formed: one slot per blob asked for, each asked
/// for once.
pub open spec fn fetch_wf(v: FetchView) -> bool {
    &&& v.slots.len() == v.requested.len()
    &&& distinct(v.requested)
}

/// What the first report on `d` says, if any report does.
pub open spec fn report_on(rs: Seq<(DigestView, Option<Seq<char>>)>, d: DigestView) -> Option<Option<Seq<char>>>
    decreases rs.len(),
{
    if rs.len() == 0 {
        None
    } else if rs[0].0 == d {
        Some(rs[0].1)
    } else {
        report_on(rs.drop_first(), d)
    }
}

/// Where a blob starts out, by its first local lookup: a verified copy is
/// kept, a missing one becomes a pack candidate, and one whose lookup
/// failed is given up.
pub open spec fn slot_at_start(l: LookupView) -> SlotView {
    match l {
        LookupView::Verified(p) => SlotView::Verified(p),
        LookupView::Missing => SlotView::Candidate,
        LookupView::Failed => SlotView::Dropped,
    }
}

/// Where a blob stands after an event.
pub open spec fn slot_after(s: SlotView, e: EventView, d: DigestView) -> SlotView {
    match e {
        EventView::Locked(rs) => match (s, report_on(rs, d)) {
            (SlotView::Candidate, Some(Some(p))) => SlotView::Verified(p),
            (SlotView::Candidate, Some(None)) => SlotView::Asked,
            _ => s,
        },
        EventView::PackRefused => match s {
            SlotView::Candidate | SlotView::Asked => SlotView::Pending,
            _ => s,
        },
        EventView::PackArrived(rs) => match s {
            SlotView::Asked => if rs.len() == 0 {
                SlotView::Pending
            } else {
                match report_on(rs, d) {
                    Some(Some(p)) => SlotView::Verified(p),
                    Some(None) => SlotView::Pending,
                    None => SlotView::Candidate,
                }
            },
            _ => s,
        },
        EventView::Fetched(rs) => match s {
            SlotView::Pending => match report_on(rs, d) {
                Some(Some(p)) => SlotView::Verified(p),
                _ => SlotView::Dropped,
            },
            _ => s,
        },
    }
}

/// The fetch after an event.
pub open spec fn fetch_after(v: FetchView, e: EventView) -> FetchView {
    FetchView {
        requested: v.requested,
        slots: Seq::new(v.slots.len(), |i: int| slot_after(v.slots[i], e, v.requested[i])),
    }
}

/// Which kind of slot.
pub open spec fn slot_kind(s: SlotView) -> int {
    match s {
        SlotView::Verified(_) => 0,
        SlotView::Candidate => 1,
        SlotView::Asked => 2,
        SlotView::Pending => 3,
        SlotView::Dropped => 4,
    }
}

/// The blobs whose slots are of `kind`, in the order asked.
pub open spec fn blobs_of_kind(ds: Seq<DigestView>, slots: Seq<SlotView>, kind: int) -> Seq<DigestView>
    decreases ds.len(),
{
    if ds.len() == 0 || slots.len() == 0 {
        Seq::empty()
    } else {
        let rest = blobs_of_kind(ds.drop_last(), slots.drop_last(), kind);
        if slot_kind(slots.last()) == kind { rest.push(ds.last()) } else { rest }
    }
}

/// What to do once nothing is asked in a pack: look up pack candidates
/// while there are any, then fetch what is still missing one by one.
pub open spec fn next_action(v: FetchView) -> ActionView {
    let candidates = blobs_of_kind(v.requested, v.slots, 1);
    let pending = blobs_of_kind(v.requested, v.slots, 3);
    if candidates.len() > 0 {
        ActionView::LockChunk(candidates)
    } else if pending.len() > 0 {
        ActionView::FetchEach(pending)
    } else {
        ActionView::Done
    }
}

/// What to do after an event, given the fetch it led to: after locked
/// lookups that left blobs to download, ask for them as a pack.
pub open spec fn action_after(e: EventView, v: FetchView) -> ActionView {
    let asked = blobs_of_kind(v.requested, v.slots, 2);
    if e is Locked && asked.len() > 0 {
        ActionView::AskPack(asked)
    } else {
        next_action(v)
    }
}

/// The verified copies, each with its blob, in the order asked.
pub open spec fn verified_copies(ds: Seq<DigestView>, slots: Seq<SlotView>) -> Seq<(DigestView, Seq<char>)>
    decreases ds.len(),
{
    if ds.len() == 0 || slots.len() == 0 {
        Seq::empty()
    } else {
        let rest = verified_copies(ds.drop_last(), slots.drop_last());
        match slots.last() {
            SlotView::Verified(p) => rest.push((ds.last(), p)),
            _ => rest,
        }
    }
}

fn report_in(rs: &Reports, d: &CacheDigest) -> (r: Option<Option<String>>)
    ensures
        match report_on(report_views(rs@), d@) {
            None => r is None,
            Some(None) => r matches Some(x) && x is None,
            Some(Some(p)) => r matches Some(x) && x matches Some(q) && q@ == p,
        },
{
    let ghost all = report_views(rs@);
    let mut j: usize = 0;
    assert(all.skip(0) == all);
    while j < rs.len()
        invariant
            j <= rs.len(),
            all == report_views(rs@),
            report_on(all, d@) == report_on(all.skip(j as int), d@),
        decreases rs.len() - j,
    {
        assert(all.skip(j as int)[0] == all[j as int]);
        assert(all.skip(j as int).drop_first() == all.skip(j + 1));
        if same_digest(&rs[j].0, d) {
            return Some(rs[j].1.clone());
        }
        j = j + 1;
    }
    None
}

fn slot_step(s: &BlobSlot, e: &FetchEvent, d: &CacheDigest) -> (r: BlobSlot)
    ensures
        r@ == slot_after(s@, e@, d@),
{
    match e {
        FetchEvent::Locked(rs) => match s {
            BlobSlot::Candidate => match report_in(rs, d) {
                Some(Some(p)) => BlobSlot::Verified(p),
                Some(None) => BlobSlot::Asked,
                None => BlobSlot::Candidate,
            },
            _ => s.clone_slot(),
        },
        FetchEvent::PackRefused => match s {
            BlobSlot::Candidate | BlobSlot::Asked => BlobSlot::Pending,
            _ => s.clone_slot(),
        },
        FetchEvent::PackArrived(rs) => match s {
            BlobSlot::Asked => if rs.len() == 0 {
                BlobSlot::Pending
            } else {
                match report_in(rs, d) {
                    Some(Some(p)) => BlobSlot::Verified(p),
                    Some(None) => BlobSlot::Pending,
                    None => BlobSlot::Candidate,
                }
            },
            _ => s.clone_slot(),
        },
        FetchEvent::Fetched(rs) => match s {
            BlobSlot::Pending => match report_in(rs, d) {
                Some(Some(p)) => BlobSlot::Verified(p),
                _ => BlobSlot::Dropped,
            },
            _ => s.clone_slot(),
        },
    }
}

impl BlobSlot {
    /// A copy of the slot.
    pub fn clone_slot(&self) -> (r: BlobSlot)
        ensures
            r@ == self@,
    {
        match self {
            BlobSlot::Verified(p) => BlobSlot::Verified(p.clone()),
            BlobSlot::Candidate => BlobSlot::Candidate,
            BlobSlot::Asked => BlobSlot::Asked,
            BlobSlot::Pending => BlobSlot::Pending,
            BlobSlot::Dropped => BlobSlot::Dropped,
        }
    }
}

fn blobs_of(requested: &Vec<CacheDigest>, slots: &Vec<BlobSlot>, kind: u8) -> (r: Vec<CacheDigest>)
    requires
        requested.len() == slots.len(),
    ensures
        digest_views(r@) == blobs_of_kind(digest_views(requested@), slots@.map_values(|s: BlobSlot| s@), kind as int),
{
    let ghost ds = digest_views(requested@);
    let ghost ss = slots@.map_values(|s: BlobSlot| s@);
    let mut out: Vec<CacheDigest> = Vec::new();
    let mut i: usize = 0;
    while i < requested.len()
        invariant
            i <= requested.len(),
            requested.len() == slots.len(),
            ds == digest_views(requested@),
            ss == slots@.map_values(|s: BlobSlot| s@),
            digest_views(out@) == blobs_of_kind(ds.take(i as int), ss.take(i as int), kind as int),
        decreases requested.len() - i,
    {
        assert(ds.take(i + 1).drop_last() == ds.take(i as int));
        assert(ss.take(i + 1).drop_last() == ss.take(i as int));
        assert(ds.take(i + 1).last() == requested@[i as int]@);
        assert(ss.take(i + 1).last() == slots@[i as int]@);
        let k: u8 = match &slots[i] {
            BlobSlot::Verified(_) => 0,
            BlobSlot::Candidate => 1,
            BlobSlot::Asked => 2,
            BlobSlot::Pending => 3,
            BlobSlot::Dropped => 4,
        };
        if k == kind {
            let ghost before = out@;
            out.push(requested[i].clone());
            assert(digest_views(out@) == digest_views(before).push(requested@[i as int]@));
        }
        i = i + 1;
    }
    assert(ds.take(requested.len() as int) == ds);
    assert(ss.take(requested.len() as int) == ss);
    out
}

impl FetchState {
    /// The blobs asked for.
    pub closed spec fn spec_requested(&self) -> Seq<DigestView> {
        self@.requested
    }

    /// Whether the fetch is well formed.
    pub open spec fn wf(&self) -> bool {
        fetch_wf(self@)
    }

    fn next(&self, e: &FetchEvent) -> (r: FetchAction)
        requires
            self.slots.len() == self.requested.len(),
        ensures
            r@ == action_after(e@, self@),
    {
        let asked = blobs_of(&self.requested, &self.slots, 2);
        if matches!(e, FetchEvent::Locked(_)) && asked.len() > 0 {
            return FetchAction::AskPack(asked);
        }
        let candidates = blobs_of(&self.requested, &self.slots, 1);
        if candidates.len() > 0 {
            return FetchAction::LockChunk(candidates);
        }
        let pending = blobs_of(&self.requested, &self.slots, 3);
        if pending.len() > 0 {
            FetchAction::FetchEach(pending)
        } else {
            FetchAction::Done
        }
    }

    /// Start a fetch of `digests`, each asked for once, given what the local
    /// store answered for each: verified copies are kept, missing blobs
    /// become pack candidates, and a failed lookup gives the blob up.
    pub fn start(digests: &Vec<CacheDigest>, lookups: &Vec<BlobLookup>) -> (r: (FetchState, FetchAction))
        requires
            digests.len() == lookups.len(),
            distinct(digest_views(digests@)),
        ensures
            r.0.wf(),
            r.0@.requested == digest_views(digests@),
            r.0@.slots == lookup_views(lookups@).map_values(|l: LookupView| slot_at_start(l)),
            r.1@ == next_action(r.0@),
    {
        let mut slots: Vec<BlobSlot> = Vec::new();
        let mut i: usize = 0;
        while i < lookups.len()
            invariant
                i <= lookups.len(),
                slots@.map_values(|s: BlobSlot| s@) == lookup_views(lookups@).take(i as int).map_values(|l: LookupView| slot_at_start(l)),
            decreases lookups.len() - i,
        {
            let ghost before = slots@;
            let slot = match &lookups[i] {
                BlobLookup::Verified(p) => BlobSlot::Verified(p.clone()),
                BlobLookup::Missing => BlobSlot::Candidate,
                BlobLookup::Failed => BlobSlot::Dropped,
            };
            slots.push(slot);
            assert(lookup_views(lookups@).take(i + 1) == lookup_views(lookups@).take(i as int).push(lookups@[i as int]@));
            assert(slots@.map_values(|s: BlobSlot| s@) == before.map_values(|s: BlobSlot| s@).push(slot@));
            i = i + 1;
        }
        assert(lookup_views(lookups@).take(lookups.len() as int) == lookup_views(lookups@));
        let mut requested: Vec<CacheDigest> = Vec::new();
        let mut j: usize = 0;
        while j < digests.len()
            invariant
                j <= digests.len(),
                digest_views(requested@) == digest_views(digests@).take(j as int),
            decreases digests.len() - j,
        {
            let ghost before = requested@;
            requested.push(digests[j].clone());
            assert(digest_views(requested@) == digest_views(before).push(digests@[j as int]@));
            assert(digest_views(digests@).take(j + 1) == digest_views(digests@).take(j as int).push(digests@[j as int]@));
            j = j + 1;
        }
        assert(digest_views(digests@).take(digests.len() as int) == digest_views(digests@));
        let state = FetchState { requested, slots };
        let action = state.next(&FetchEvent::PackRefused);
        (state, action)
    }

    /// The verified copies so far, each with its blob, in the order asked.
    pub fn verified(&self) -> (r: Vec<(CacheDigest, String)>)
        requires
            self.wf(),
        ensures
            r@.map_values(|e: (CacheDigest, String)| (e.0@, e.1@)) == verified_copies(self@.requested, self@.slots),
    {
        let ghost ds = self@.requested;
        let ghost ss = self@.slots;
        let mut out: Vec<(CacheDigest, String)> = Vec::new();
        let mut i: usize = 0;
        while i < self.requested.len()
            invariant
                i <= self.requested.len(),
                self.requested.len() == self.slots.len(),
                ds == self@.requested,
                ss == self@.slots,
                out@.map_values(|e: (CacheDigest, String)| (e.0@, e.1@)) == verified_copies(ds.take(i as int), ss.take(i as int)),
            decreases self.requested.len() - i,
        {
            assert(ds.take(i + 1).drop_last() == ds.take(i as int));
            assert(ss.take(i + 1).drop_last() == ss.take(i as int));
            assert(ds.take(i + 1).last() == self.requested@[i as int]@);
            assert(ss.take(i + 1).last() == self.slots@[i as int]@);
            match &self.slots[i] {
                BlobSlot::Verified(p) => {
                    let ghost before = out@;
                    out.push((self.requested[i].clone(), p.clone()));
                    assert(out@.map_values(|e: (CacheDigest, String)| (e.0@, e.1@))
                        == before.map_values(|e: (CacheDigest, String)| (e.0@, e.1@)).push((self.requested@[i as int]@, p@)));
                },
                _ => {},
            }
            i = i + 1;
        }
        assert(ds.take(self.requested.len() as int) == ds);
        assert(ss.take(self.requested.len() as int) == ss);
        out
    }
}

/// One step of a fetch: where each blob stands after the event, and what
/// the caller does next.
pub fn fetch_step(state: &FetchState, event: &FetchEvent) -> (r: (FetchState, FetchAction))
    requires
        state.wf(),
    ensures
        r.0.wf(),
        r.0@ == fetch_after(state@, event@),
        r.1@ == action_after(event@, r.0@),
{
    let ghost v = state@;
    let mut slots: Vec<BlobSlot> = Vec::new();
    let mut i: usize = 0;
    while i < state.slots.len()
        invariant
            i <= state.slots.len(),
            state.wf(),
            v == state@,
            slots@.len() == i,
            forall|k: int| 0 <= k < i ==> (#[trigger] slots@[k])@ == slot_after(v.slots[k], event@, v.requested[k]),
        decreases state.slots.len() - i,
    {
        let slot = slot_step(&state.slots[i], event, &state.requested[i]);
        slots.push(slot);
        i = i + 1;
    }
    let mut requested: Vec<CacheDigest> = Vec::new();
    let mut j: usize = 0;
    while j < state.requested.len()
        invariant
            j <= state.requested.len(),
            digest_views(requested@) == digest_views(state.requested@).take(j as int),
        decreases state.requested.len() - j,
    {
        let ghost before = requested@;
        requested.push(state.requested[j].clone());
        assert(digest_views(requested@) == digest_views(before).push(state.requested@[j as int]@));
        assert(digest_views(state.requested@).take(j + 1) == digest_views(state.requested@).take(j as int).push(state.requested@[j as int]@));
        j = j + 1;
    }
    assert(digest_views(state.requested@).take(state.requested.len() as int) == digest_views(state.requested@));
    let next = FetchState { requested, slots };
    assert(next@.slots == fetch_after(v, event@).slots);
    let action = next.next(event);
    (next, action)
}

proof fn lemma_of_kind_from(ds: Seq<DigestView>, slots: Seq<SlotView>, kind: int, x: DigestView)
    requires
        blobs_of_kind(ds, slots, kind).contains(x),
        ds.len() == slots.len(),
    ensures
        exists|i: int| 0 <= i < ds.len() && ds[i] == x && slot_kind(slots[i]) == kind,
    decreases ds.len(),
{
    let rest = blobs_of_kind(ds.drop_last(), slots.drop_last(), kind);
    if slot_kind(slots.last()) == kind && x == ds.last() {
        assert(ds[ds.len() - 1] == x);
    } else {
        if slot_kind(slots.last()) == kind {
            let k = choose|k: int| 0 <= k < blobs_of_kind(ds, slots, kind).len() && blobs_of_kind(ds, slots, kind)[k] == x;
            assert(rest[k] == x);
        }
        assert(rest.contains(x));
        lemma_of_kind_from(ds.drop_last(), slots.drop_last(), kind, x);
        let i = choose|i: int| 0 <= i < ds.drop_last().len() && ds.drop_last()[i] == x && slot_kind(slots.drop_last()[i]) == kind;
        assert(ds[i] == x && slots[i] == slots.drop_last()[i]);
    }
}

proof fn lemma_copies_from(ds: Seq<DigestView>, slots: Seq<SlotView>, c: (DigestView, Seq<char>))
    requires
        verified_copies(ds, slots).contains(c),
        ds.len() == slots.len(),
    ensures
        exists|i: int| 0 <= i < ds.len() && ds[i] == c.0 && slots[i] == SlotView::Verified(c.1),
    decreases ds.len(),
{
    let rest = verified_copies(ds.drop_last(), slots.drop_last());
    match slots.last() {
        SlotView::Verified(p) => {
            if c == (ds.last(), p) {
                assert(ds[ds.len() - 1] == c.0);
            } else {
                let k = choose|k: int| 0 <= k < verified_copies(ds, slots).len() && verified_copies(ds, slots)[k] == c;
                assert(rest[k] == c);
                lemma_copies_from(ds.drop_last(), slots.drop_last(), c);
                let i = choose|i: int| 0 <= i < ds.drop_last().len() && ds.drop_last()[i] == c.0 && slots.drop_last()[i] == SlotView::Verified(c.1);
                assert(ds[i] == c.0 && slots[i] == slots.drop_last()[i]);
            }
        },
        _ => {
            lemma_copies_from(ds.drop_last(), slots.drop_last(), c);
            let i = choose|i: int| 0 <= i < ds.drop_last().len() && ds.drop_last()[i] == c.0 && slots.drop_last()[i] == SlotView::Verified(c.1);
            assert(ds[i] == c.0 && slots[i] == slots.drop_last()[i]);
        },
    }
}

/// Every verified copy a fetch hands back is of a blob that was asked for.
pub proof fn lemma_copies_were_requested(v: FetchView, c: (DigestView, Seq<char>))
    requires
        fetch_wf(v),
        verified_copies(v.requested, v.slots).contains(c),
    ensures
        v.requested.contains(c.0),
{
    lemma_copies_from(v.requested, v.slots, c);
    let i = choose|i: int| 0 <= i < v.requested.len() && v.requested[i] == c.0 && v.slots[i] == SlotView::Verified(c.1);
    assert(v.requested[i] == c.0);
}

/// A blob with a verified copy is never asked of the remote: no action
/// after any event names a blob that is verified in the fetch it led to,
/// and a verified copy stays as it was through every event.
pub proof fn lemma_verified_blobs_are_not_fetched(v: FetchView, e: EventView, d: DigestView, i: int)
    requires
        fetch_wf(v),
        0 <= i < v.requested.len(),
        v.requested[i] == d,
        v.slots[i] is Verified,
    ensures
        fetch_after(v, e).slots[i] == v.slots[i],
        match action_after(e, fetch_after(v, e)) {
            ActionView::LockChunk(ds) => !ds.contains(d),
            ActionView::AskPack(ds) => !ds.contains(d),
            ActionView::FetchEach(ds) => !ds.contains(d),
            ActionView::Done => true,
        },
{
    let w = fetch_after(v, e);
    assert(w.slots[i] == v.slots[i]);
    assert forall|kind: int| 1 <= kind <= 3 implies !blobs_of_kind(w.requested, w.slots, kind).contains(d) by {
        if blobs_of_kind(w.requested, w.slots, kind).contains(d) {
            lemma_of_kind_from(w.requested, w.slots, kind, d);
            let j = choose|j: int| 0 <= j < w.requested.len() && w.requested[j] == d && slot_kind(w.slots[j]) == kind;
            assert(j == i);
        }
    }
    assert(!blobs_of_kind(w.requested, w.slots, 1).contains(d));
    assert(!blobs_of_kind(w.requested, w.slots, 2).contains(d));
    assert(!blobs_of_kind(w.requested, w.slots, 3).contains(d));
}

/// A fetch after a run of events, in order.
pub open spec fn fetch_run(v: FetchView, events: Seq<EventView>) -> FetchView
    decreases events.len(),
{
    if events.len() == 0 {
        v
    } else {
        fetch_after(fetch_run(v, events.drop_last()), events.last())
    }
}

/// Whether action `a` names blob `d`.
pub open spec fn names_blob(a: ActionView, d: DigestView) -> bool {
    match a {
        ActionView::LockChunk(ds) => ds.contains(d),
        ActionView::AskPack(ds) => ds.contains(d),
        ActionView::FetchEach(ds) => ds.contains(d),
        ActionView::Done => false,
    }
}

/// Over a whole fetch, whatever the caller hands back: the fetch stays well
/// formed and asks for the same blobs; every copy it ends with is of a blob
/// asked for; and a blob verified when the run starts stays verified with
/// the same path, and no action after any event names it.
pub proof fn lemma_whole_fetch(v: FetchView, events: Seq<EventView>, i: int, d: DigestView)
    requires
        fetch_wf(v),
        0 <= i < v.requested.len(),
        v.requested[i] == d,
        v.slots[i] is Verified,
    ensures
        fetch_wf(fetch_run(v, events)),
        fetch_run(v, events).requested == v.requested,
        fetch_run(v, events).slots[i] == v.slots[i],
        forall|c: (DigestView, Seq<char>)| verified_copies(fetch_run(v, events).requested, fetch_run(v, events).slots).contains(c)
            ==> v.requested.contains(c.0),
        forall|k: int| 0 <= k < events.len() ==> !names_blob(
            action_after(#[trigger] events[k], fetch_run(v, events.take(k + 1))), d),
    decreases events.len(),
{
    if events.len() > 0 {
        let before = events.drop_last();
        lemma_whole_fetch(v, before, i, d);
        let w = fetch_run(v, before);
        lemma_verified_blobs_are_not_fetched(w, events.last(), d, i);
        assert forall|c: (DigestView, Seq<char>)| verified_copies(fetch_run(v, events).requested, fetch_run(v, events).slots).contains(c)
            implies v.requested.contains(c.0) by {
            lemma_copies_were_requested(fetch_run(v, events), c);
        }
        assert forall|k: int| 0 <= k < events.len() implies !names_blob(
            action_after(#[trigger] events[k], fetch_run(v, events.take(k + 1))), d) by {
            if k < events.len() - 1 {
                assert(events.take(k + 1) == before.take(k + 1));
                assert(events[k] == before[k]);
            } else {
                assert(events.take(k + 1) == events);
            }
        }
    } else {
        assert forall|c: (DigestView, Seq<char>)| verified_copies(v.requested, v.slots).contains(c)
            implies v.requested.contains(c.0) by {
            lemma_copies_were_requested(v, c);
        }
    }
}

} // verus!
