//! Reading one newline-delimited request from a byte stream, whatever
//! pieces the stream arrives in, within a size bound.
use vstd::prelude::*;

verus! {

/// Largest single protocol request the agent will read.
pub const MAX_REQUEST_BYTES: usize = 16777216;

/// The index of the first newline in `s`, or its length.
pub open spec fn line_end(s: Seq<u8>) -> int
    decreases s.len(),
{
    if s.len() == 0 {
        0
    } else if s[0] == 10u8 {
        0
    } else {
        1 + line_end(s.drop_first())
    }
}

proof fn lemma_line_end(s: Seq<u8>)
    ensures
        0 <= line_end(s) <= s.len(),
        forall|i: int| 0 <= i < line_end(s) ==> s[i] != 10u8,
        line_end(s) < s.len() ==> s[line_end(s)] == 10u8,
    decreases s.len(),
{
    if s.len() > 0 && s[0] != 10u8 {
        lemma_line_end(s.drop_first());
        assert forall|i: int| 0 <= i < line_end(s) implies s[i] != 10u8 by {
            if i > 0 {
                assert(s[i] == s.drop_first()[i - 1]);
            }
        }
    }
}

/// What one piece of the stream did to the request.
#[derive(Debug, Clone, Copy, PartialEq, Eq, Structural)]
pub enum FrameStep {
    /// The piece ended before the newline: more is needed.
    More,
    /// The newline arrived: the request is complete.
    Complete,
    /// The request would exceed [`MAX_REQUEST_BYTES`].
    TooLong,
}

/// A request being read: the bytes received so far, none of them a newline.
pub struct RequestFrame {
    line: Vec<u8>,
}

impl RequestFrame {
    /// The bytes of the request received so far.
    pub closed spec fn spec_line(&self) -> Seq<u8> {
        self.line@
    }

    /// No received byte is a newline.
    pub open spec fn wf(&self) -> bool {
        forall|i: int| 0 <= i < self.spec_line().len() ==> #[trigger] self.spec_line()[i] != 10u8
    }

    /// Nothing received yet.
    pub fn new() -> (r: Self)
        ensures
            r.wf(),
            r.spec_line() == Seq::<u8>::empty(),
    {
        RequestFrame { line: Vec::new() }
    }

    /// Take what a buffered read offers, up to and including the first
    /// newline: gives how many bytes were taken and whether the request is
    /// complete, needs more, or would grow past the bound (then nothing is
    /// taken). The newline itself is taken but not kept.
    pub fn feed(&mut self, available: &[u8]) -> (r: (usize, FrameStep))
        requires
            old(self).wf(),
        ensures
            final(self).wf(),
            ({
                let end = line_end(available@);
                let complete = end < available@.len();
                if old(self).spec_line().len() + end > MAX_REQUEST_BYTES {
                    r == (0usize, FrameStep::TooLong) && final(self).spec_line() == old(self).spec_line()
                } else {
                    &&& final(self).spec_line() == old(self).spec_line() + available@.take(end)
                    &&& r.0 == end + if complete { 1int } else { 0int }
                    &&& r.1 == if complete { FrameStep::Complete } else { FrameStep::More }
                }
            }),
    {
        proof {
            lemma_line_end(available@);
        }
        let mut end: usize = 0;
        while end < available.len() && available[end] != 10u8
            invariant
                end <= available.len(),
                forall|i: int| 0 <= i < end ==> available@[i] != 10u8,
                end <= line_end(available@),
                0 <= line_end(available@) <= available@.len(),
                line_end(available@) < available@.len() ==> available@[line_end(available@)] == 10u8,
            decreases available.len() - end,
        {
            end = end + 1;
        }
        assert(end == line_end(available@)) by {
            if end < line_end(available@) {
                assert(available@[end as int] != 10u8);
            }
        }
        let complete = end < available.len();
        if end > MAX_REQUEST_BYTES || self.line.len() > MAX_REQUEST_BYTES - end {
            return (0, FrameStep::TooLong);
        }
        let ghost before = self.line@;
        assert forall|q: int| 0 <= q < before.len() implies #[trigger] before[q] != 10u8 by {
            assert(old(self).spec_line()[q] == before[q]);
        }
        let mut i: usize = 0;
        while i < end
            invariant
                i <= end <= available.len(),
                self.line@ == before + available@.take(i as int),
                forall|q: int| 0 <= q < before.len() ==> #[trigger] before[q] != 10u8,
                forall|q: int| 0 <= q < end ==> available@[q] != 10u8,
                forall|q: int| 0 <= q < self.line@.len() ==> #[trigger] self.line@[q] != 10u8,
            decreases end - i,
        {
            self.line.push(available[i]);
            assert(available@.take(i + 1) =~= available@.take(i as int).push(available@[i as int]));
            i = i + 1;
        }
        if complete {
            (end + 1, FrameStep::Complete)
        } else {
            (end, FrameStep::More)
        }
    }

    /// The request's bytes.
    pub fn into_line(self) -> (r: Vec<u8>)
        ensures
            r@ == self.spec_line(),
    {
        self.line
    }
}

} // verus!
