//! Byte scans over compiler inputs: the timestamp macros whose expansion is
//! not a function of the inputs, found even across read boundaries.
use vstd::prelude::*;

verus! {

/// Whether `needle` occurs in `haystack`; an empty needle never does.
pub open spec fn has_subslice(haystack: Seq<u8>, needle: Seq<u8>) -> bool {
    needle.len() > 0 && exists|i: int| 0 <= i <= haystack.len() - needle.len()
        && #[trigger] haystack.subrange(i, i + needle.len()) == needle
}

/// Whether `needle` occurs in `haystack`, see [`has_subslice`].
pub fn contains_subslice(haystack: &[u8], needle: &[u8]) -> (r: bool)
    ensures
        r == has_subslice(haystack@, needle@),
{
    if needle.len() == 0 || haystack.len() < needle.len() {
        return false;
    }
    let last = haystack.len() - needle.len();
    let mut i: usize = 0;
    while i <= last
        invariant
            0 < needle.len() <= haystack.len(),
            last == haystack.len() - needle.len(),
            i <= last + 1,
            forall|k: int| 0 <= k < i ==> #[trigger] haystack@.subrange(k, k + needle.len()) != needle@,
        decreases last + 1 - i,
    {
        let mut j: usize = 0;
        let mut same = true;
        while j < needle.len()
            invariant
                0 < needle.len() <= haystack.len(),
                i <= last,
                last == haystack.len() - needle.len(),
                j <= needle.len(),
                same == forall|t: int| 0 <= t < j ==> haystack@[i + t] == needle@[t],
            decreases needle.len() - j,
        {
            if haystack[i + j] != needle[j] {
                same = false;
            }
            j = j + 1;
        }
        if same {
            assert(haystack@.subrange(i as int, i + needle.len()) =~= needle@);
            return true;
        }
        assert(haystack@.subrange(i as int, i + needle.len()) != needle@) by {
            let t = choose|t: int| 0 <= t < needle.len() && haystack@[i + t] != needle@[t];
            assert(haystack@.subrange(i as int, i + needle.len())[t] == haystack@[i + t]);
        }
        i = i + 1;
    }
    false
}

/// `__DATE__`.
pub open spec fn date_macro() -> Seq<u8> {
    seq![0x5fu8, 0x5f, 0x44, 0x41, 0x54, 0x45, 0x5f, 0x5f]
}

/// `__TIME__`.
pub open spec fn time_macro() -> Seq<u8> {
    seq![0x5fu8, 0x5f, 0x54, 0x49, 0x4d, 0x45, 0x5f, 0x5f]
}

/// `__TIMESTAMP__`.
pub open spec fn timestamp_macro() -> Seq<u8> {
    seq![0x5fu8, 0x5f, 0x54, 0x49, 0x4d, 0x45, 0x53, 0x54, 0x41, 0x4d, 0x50, 0x5f, 0x5f]
}

/// Whether bytes mention a macro whose expansion is not a function of the
/// compilation's inputs. The token is looked for rather than its expansion,
/// so one inside a comment or a string counts too.
pub open spec fn mentions_timestamp_macro(bytes: Seq<u8>) -> bool {
    has_subslice(bytes, date_macro()) || has_subslice(bytes, time_macro()) || has_subslice(bytes, timestamp_macro())
}

/// Bytes kept between reads: one fewer than the longest macro.
pub const SCAN_OVERLAP: usize = 12;

/// Whether bytes mention a timestamp macro.
pub fn mentions_timestamp(bytes: &[u8]) -> (r: bool)
    ensures
        r == mentions_timestamp_macro(bytes@),
{
    let date: [u8; 8] = [0x5f, 0x5f, 0x44, 0x41, 0x54, 0x45, 0x5f, 0x5f];
    let time: [u8; 8] = [0x5f, 0x5f, 0x54, 0x49, 0x4d, 0x45, 0x5f, 0x5f];
    let stamp: [u8; 13] = [0x5f, 0x5f, 0x54, 0x49, 0x4d, 0x45, 0x53, 0x54, 0x41, 0x4d, 0x50, 0x5f, 0x5f];
    assert(date@ =~= date_macro());
    assert(time@ =~= time_macro());
    assert(stamp@ =~= timestamp_macro());
    contains_subslice(bytes, &date) || contains_subslice(bytes, &time) || contains_subslice(bytes, &stamp)
}

/// A scan for timestamp macros over a file read in chunks: it keeps the
/// last bytes of what it has seen, so a token split across two reads is
/// still found.
pub struct TimestampScanner {
    tail: Vec<u8>,
    found: bool,
    seen: Ghost<Seq<u8>>,
}

/// The bytes a scanner keeps from what it has seen.
pub open spec fn overlap_of(seen: Seq<u8>) -> Seq<u8> {
    if seen.len() <= SCAN_OVERLAP { seen } else { seen.skip(seen.len() - SCAN_OVERLAP) }
}

proof fn lemma_window(seen: Seq<u8>, chunk: Seq<u8>, needle: Seq<u8>)
    requires
        0 < needle.len() <= SCAN_OVERLAP + 1,
    ensures
        has_subslice(seen + chunk, needle) <==> (has_subslice(seen, needle) || has_subslice(overlap_of(seen) + chunk, needle)),
{
    let whole = seen + chunk;
    let tail = overlap_of(seen);
    let window = tail + chunk;
    let off = seen.len() - tail.len();
    let m = needle.len() as int;
    assert forall|i: int| 0 <= i <= window.len() - m implies #[trigger] window.subrange(i, i + m) == whole.subrange(i + off, i + off + m) by {
        assert forall|t: int| 0 <= t < m implies #[trigger] window.subrange(i, i + m)[t] == whole.subrange(i + off, i + off + m)[t] by {
            if i + t < tail.len() {
                assert(window[i + t] == tail[i + t]);
                assert(whole[i + t + off] == seen[i + t + off]);
            } else {
                assert(window[i + t] == chunk[i + t - tail.len()]);
                assert(whole[i + t + off] == chunk[i + t + off - seen.len()]);
            }
        }
        assert(window.subrange(i, i + m) =~= whole.subrange(i + off, i + off + m));
    }
    assert forall|i: int| 0 <= i <= seen.len() - m implies #[trigger] seen.subrange(i, i + m) == whole.subrange(i, i + m) by {
        assert(seen.subrange(i, i + m) =~= whole.subrange(i, i + m));
    }
    if has_subslice(whole, needle) {
        let i = choose|i: int| 0 <= i <= whole.len() - m && #[trigger] whole.subrange(i, i + m) == needle;
        if i + m <= seen.len() {
            assert(seen.subrange(i, i + m) == needle);
        } else {
            assert(i - off >= 0);
            assert(window.subrange(i - off, i - off + m) == needle);
        }
    }
    if has_subslice(seen, needle) {
        let i = choose|i: int| 0 <= i <= seen.len() - m && #[trigger] seen.subrange(i, i + m) == needle;
        assert(whole.subrange(i, i + m) == needle);
    }
    if has_subslice(window, needle) {
        let i = choose|i: int| 0 <= i <= window.len() - m && #[trigger] window.subrange(i, i + m) == needle;
        assert(whole.subrange(i + off, i + off + m) == needle);
    }
}

impl TimestampScanner {
    /// Everything the scanner has been fed.
    pub closed spec fn seen(&self) -> Seq<u8> {
        self.seen@
    }

    /// The scanner keeps the overlap of what it has seen, and knows whether
    /// a macro appeared in it.
    pub closed spec fn wf(&self) -> bool {
        &&& self.tail@ == overlap_of(self.seen@)
        &&& self.found == mentions_timestamp_macro(self.seen@)
    }

    /// A scan that has seen nothing.
    pub fn new() -> (r: Self)
        ensures
            r.wf(),
            r.seen() == Seq::<u8>::empty(),
    {
        let r = TimestampScanner { tail: Vec::new(), found: false, seen: Ghost(Seq::empty()) };
        assert(!mentions_timestamp_macro(Seq::<u8>::empty()));
        r
    }

    /// Feed the next chunk read; the answer is whether everything read so
    /// far mentions a timestamp macro.
    pub fn feed(&mut self, chunk: &[u8]) -> (r: bool)
        requires
            old(self).wf(),
        ensures
            final(self).wf(),
            final(self).seen() == old(self).seen() + chunk@,
            r == mentions_timestamp_macro(final(self).seen()),
    {
        let ghost before = self.seen@;
        let mut window: Vec<u8> = Vec::new();
        let mut i: usize = 0;
        while i < self.tail.len()
            invariant
                i <= self.tail.len(),
                window@ == self.tail@.take(i as int),
            decreases self.tail.len() - i,
        {
            window.push(self.tail[i]);
            assert(self.tail@.take(i + 1) =~= self.tail@.take(i as int).push(self.tail@[i as int]));
            i = i + 1;
        }
        assert(self.tail@.take(self.tail.len() as int) == self.tail@);
        let mut j: usize = 0;
        while j < chunk.len()
            invariant
                j <= chunk.len(),
                window@ == self.tail@ + chunk@.take(j as int),
            decreases chunk.len() - j,
        {
            window.push(chunk[j]);
            assert(chunk@.take(j + 1) =~= chunk@.take(j as int).push(chunk@[j as int]));
            assert(window@ =~= self.tail@ + chunk@.take(j + 1));
            j = j + 1;
        }
        assert(chunk@.take(chunk.len() as int) == chunk@);
        let hit = mentions_timestamp(&window);
        proof {
            lemma_window(before, chunk@, date_macro());
            lemma_window(before, chunk@, time_macro());
            lemma_window(before, chunk@, timestamp_macro());
        }
        self.found = self.found || hit;
        self.seen = Ghost(before + chunk@);
        // Keep the last bytes of the window, which are the last of all seen.
        let keep_from = if window.len() > SCAN_OVERLAP { window.len() - SCAN_OVERLAP } else { 0 };
        let mut tail: Vec<u8> = Vec::new();
        let mut k: usize = keep_from;
        while k < window.len()
            invariant
                keep_from <= k <= window.len(),
                tail@ == window@.subrange(keep_from as int, k as int),
            decreases window.len() - k,
        {
            tail.push(window[k]);
            assert(window@.subrange(keep_from as int, k + 1) =~= window@.subrange(keep_from as int, k as int).push(window@[k as int]));
            k = k + 1;
        }
        proof {
            let all = before + chunk@;
            let w = overlap_of(before) + chunk@;
            assert(w.len() <= all.len());
            assert(tail@ == w.subrange(keep_from as int, w.len() as int));
            assert forall|t: int| 0 <= t < tail@.len() implies tail@[t] == overlap_of(all)[t] by {
                let off = before.len() - overlap_of(before).len();
                assert(w[keep_from + t] == all[keep_from + t + off]);
            }
            assert(tail@ =~= overlap_of(all));
        }
        self.tail = tail;
        self.found
    }
}

} // verus!
