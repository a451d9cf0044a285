//! A seekable stream over the segments of one file.
//!
//! `SegmentSearch` finds the segment that holds a byte offset: it guesses a
//! segment, looks at the byte range in that segment's yEnc header, and narrows
//! the search. `SeekableSegmentStream` keeps the position, the pending seek, the
//! segment from which the running article stream was opened, and how much of that
//! segment comes before the position.

use vstd::prelude::*;

use crate::num;
use crate::stream::multi_segment_stream;
use crate::stream::multi_segment_stream::Progress;
use crate::stream::provider::YencHeaders;

verus! {

/// The segment that a search ended at, and the byte offset where it starts.
#[derive(Clone, Copy, Debug, PartialEq, Eq, Structural)]
pub struct FoundSegment {
    pub index: usize,
    pub start_byte: u64,
}

/// A search that waits for the yEnc header of one of the segments it still considers.
#[derive(Clone, Copy, Debug, PartialEq, Eq, Structural)]
pub struct SegmentSearch {
    /// The number of segments of the file.
    pub segments: usize,
    /// The size of the file in bytes.
    pub file_size: u64,
    /// The byte offset that is looked for.
    pub target: u64,
    /// The first segment still considered.
    pub lo_idx: usize,
    /// The segment after the last one still considered.
    pub hi_idx: usize,
    /// Where the first segment still considered starts.
    pub lo_byte: u64,
    /// Where the last segment still considered ends.
    pub hi_byte: u64,
}

/// What a search does next.
#[derive(Clone, Copy, Debug, PartialEq, Eq, Structural)]
pub enum SearchStep {
    /// The file has no segments.
    NoSegments,
    /// The search is over.
    Found(FoundSegment),
    /// The header of one of the segments still considered is needed.
    Probe(SegmentSearch),
}

/// The average size of a segment.
pub open spec fn average(segments: int, file_size: u64) -> int {
    file_size as int / segments
}

/// Where a search settles when headers do not help: one segment before the one
/// that holds the target if all segments had the average size.
pub open spec fn estimated_index(segments: int, file_size: u64, target: u64) -> int {
    let avg = average(segments, file_size);
    let est = if avg > 0 {
        if target as int / avg < segments - 1 {
            target as int / avg
        } else {
            segments - 1
        }
    } else {
        0
    };
    if est > 0 {
        est - 1
    } else {
        0
    }
}

/// The segment that the estimate names, with its estimated start.
pub open spec fn estimate(segments: int, file_size: u64, target: u64) -> FoundSegment {
    FoundSegment {
        index: estimated_index(segments, file_size, target) as usize,
        start_byte: (estimated_index(segments, file_size, target) * average(
            segments,
            file_size,
        )) as u64,
    }
}

impl SegmentSearch {
    /// The target lies in the byte range still considered, and segments are left.
    pub open spec fn is_open(self) -> bool {
        &&& self.lo_idx < self.hi_idx
        &&& self.lo_byte <= self.target < self.hi_byte
    }

    /// What every search that waits for a header keeps.
    pub open spec fn wf(self) -> bool {
        &&& self.is_open()
        &&& self.hi_idx <= self.segments
        &&& self.target > 0
    }

    /// Goes on while the search is open. A target behind the last segment is found there.
    /// Else the headers do not agree with each other, and the search settles for the
    /// estimate.
    pub open spec fn next(self) -> SearchStep {
        if self.is_open() {
            SearchStep::Probe(self)
        } else if self.lo_idx == self.segments && self.lo_byte <= self.target {
            SearchStep::Found(FoundSegment { index: self.segments, start_byte: self.lo_byte })
        } else {
            SearchStep::Found(estimate(self.segments as int, self.file_size, self.target))
        }
    }

    /// The search after the header of segment `index` was seen.
    pub open spec fn observed(self, index: usize, headers: YencHeaders) -> SearchStep {
        if headers.part_end <= self.target {
            (SegmentSearch {
                lo_idx: (index + 1) as usize,
                lo_byte: headers.part_end,
                ..self
            }).next()
        } else if headers.part_begin > self.target {
            (SegmentSearch { hi_idx: index, hi_byte: headers.part_begin, ..self }).next()
        } else {
            SearchStep::Found(FoundSegment { index, start_byte: headers.part_begin })
        }
    }

    /// The search at its start.
    pub open spec fn initial(segments: usize, file_size: u64, target: u64) -> SegmentSearch {
        SegmentSearch {
            segments,
            file_size,
            target,
            lo_idx: 0,
            hi_idx: segments,
            lo_byte: 0,
            hi_byte: file_size,
        }
    }

    /// The segment to look at, for a guess counted from the first one still considered:
    /// the guess, held inside the range.
    pub open spec fn clamped(self, guess_offset: int) -> int {
        if guess_offset < 0 {
            self.lo_idx as int
        } else if self.lo_idx + guess_offset > self.hi_idx - 1 {
            self.hi_idx - 1
        } else {
            self.lo_idx + guess_offset
        }
    }
}

/// What the search for the segment that holds the byte at `target` starts with.
///
/// A file without segments has nothing to find; offset 0 is in the first segment
/// of every other file.
pub open spec fn first_step(segments: usize, file_size: u64, target: u64) -> SearchStep {
    if segments == 0 {
        SearchStep::NoSegments
    } else if target == 0 {
        SearchStep::Found(FoundSegment { index: 0, start_byte: 0 })
    } else {
        SegmentSearch::initial(segments, file_size, target).next()
    }
}

/// Starts the search for the segment that holds the byte at `target`.
pub fn find_segment(segments: usize, file_size: u64, target: u64) -> (r: SearchStep)
    ensures
        r == first_step(segments, file_size, target),
        r matches SearchStep::Probe(s) ==> s.wf() && s.segments == segments && s.target == target,
        r matches SearchStep::Found(f) ==> f.index <= segments && f.start_byte <= target,
{
    if segments == 0 {
        return SearchStep::NoSegments;
    }
    if target == 0 {
        return SearchStep::Found(FoundSegment { index: 0, start_byte: 0 });
    }
    let search = SegmentSearch {
        segments,
        file_size,
        target,
        lo_idx: 0,
        hi_idx: segments,
        lo_byte: 0,
        hi_byte: file_size,
    };
    search.proceed()
}

/// The estimate is a segment of the file, and starts at or before the target.
pub proof fn lemma_estimate(segments: int, file_size: u64, target: u64)
    requires
        0 < segments,
    ensures
        0 <= estimated_index(segments, file_size, target) < segments,
        0 <= average(segments, file_size) <= file_size,
        average(segments, file_size) * segments <= file_size,
        0 <= estimated_index(segments, file_size, target) * average(segments, file_size)
            <= file_size,
        estimated_index(segments, file_size, target) * average(segments, file_size) <= target,
{
    let avg = average(segments, file_size);
    let idx = estimated_index(segments, file_size, target);
    assert(avg * segments <= file_size && 0 <= avg <= file_size) by (nonlinear_arith)
        requires
            avg == file_size as int / segments,
            segments > 0,
            file_size >= 0,
    ;
    if avg > 0 {
        let q = target as int / avg;
        assert(0 <= q && q * avg <= target) by (nonlinear_arith)
            requires
                q == target as int / avg,
                avg > 0,
                target >= 0,
        ;
        assert(0 <= idx * avg <= q * avg && idx * avg <= segments * avg) by (nonlinear_arith)
            requires
                0 <= idx <= q,
                idx <= segments,
                avg > 0,
        ;
        assert(segments * avg == avg * segments) by (nonlinear_arith);
    } else {
        assert(idx * avg == 0) by (nonlinear_arith)
            requires
                avg == 0,
        ;
    }
}

impl SegmentSearch {
    /// Settles for the estimate.
    fn settle(&self) -> (r: FoundSegment)
        requires
            0 < self.segments,
        ensures
            r == estimate(self.segments as int, self.file_size, self.target),
            r.index < self.segments,
            r.start_byte <= self.target,
    {
        let n: u64 = self.segments as u64;
        let avg: u64 = self.file_size / n;
        proof {
            lemma_estimate(self.segments as int, self.file_size, self.target);
        }
        let est: u64 = if avg > 0 {
            let q: u64 = self.target / avg;
            if q < n - 1 {
                q
            } else {
                n - 1
            }
        } else {
            0
        };
        let index: u64 = if est > 0 {
            est - 1
        } else {
            0
        };
        assert(index == estimated_index(self.segments as int, self.file_size, self.target));
        FoundSegment { index: index as usize, start_byte: index * avg }
    }

    /// Goes on while the search is open, and ends when it is not.
    fn proceed(self) -> (r: SearchStep)
        requires
            0 < self.segments,
            self.hi_idx <= self.segments,
            self.target > 0,
        ensures
            r == self.next(),
            r matches SearchStep::Probe(s) ==> s.wf() && s == self,
            r matches SearchStep::Found(f) ==> f.index <= self.segments && f.start_byte
                <= self.target,
    {
        if self.lo_idx < self.hi_idx && self.lo_byte <= self.target && self.target < self.hi_byte {
            SearchStep::Probe(self)
        } else if self.lo_idx == self.segments && self.lo_byte <= self.target {
            SearchStep::Found(FoundSegment { index: self.segments, start_byte: self.lo_byte })
        } else {
            SearchStep::Found(self.settle())
        }
    }

    /// How far the target lies into the byte range still considered, how long that
    /// range is, and how many segments it has: what a guess is made from.
    pub fn interpolation(&self) -> (r: (u64, u64, usize))
        requires
            self.wf(),
        ensures
            r.0 == self.target - self.lo_byte,
            r.1 == self.hi_byte - self.lo_byte,
            r.2 == self.hi_idx - self.lo_idx,
            r.0 < r.1,
            0 < r.2,
    {
        (self.target - self.lo_byte, self.hi_byte - self.lo_byte, self.hi_idx - self.lo_idx)
    }

    /// The segment to look at for a guess counted from the first one still considered.
    pub fn probe_index(&self, guess_offset: i64) -> (r: usize)
        requires
            self.wf(),
        ensures
            r == self.clamped(guess_offset as int),
            self.lo_idx <= r < self.hi_idx,
    {
        if guess_offset < 0 {
            self.lo_idx
        } else if guess_offset as u64 > (self.hi_idx - 1 - self.lo_idx) as u64 {
            self.hi_idx - 1
        } else {
            self.lo_idx + guess_offset as usize
        }
    }

    /// Takes in the header of a segment that was looked at.
    pub fn observe(self, index: usize, headers: &YencHeaders) -> (r: SearchStep)
        requires
            self.wf(),
            self.lo_idx <= index < self.hi_idx,
        ensures
            r == self.observed(index, *headers),
            r matches SearchStep::Probe(s) ==> s.wf() && s.segments == self.segments && s.target
                == self.target && s.hi_idx - s.lo_idx < self.hi_idx - self.lo_idx,
            r matches SearchStep::Found(f) ==> f.index <= self.segments && f.start_byte
                <= self.target,
    {
        if headers.part_end <= self.target {
            (SegmentSearch { lo_idx: index + 1, lo_byte: headers.part_end, ..self }).proceed()
        } else if headers.part_begin > self.target {
            (SegmentSearch { hi_idx: index, hi_byte: headers.part_begin, ..self }).proceed()
        } else {
            SearchStep::Found(FoundSegment { index, start_byte: headers.part_begin })
        }
    }

    /// Settles for the estimate because a header could not be fetched.
    ///
    /// The average segment must not be empty: the estimate divides by it.
    pub fn probe_failed(&self) -> (r: FoundSegment)
        requires
            self.wf(),
            average(self.segments as int, self.file_size) > 0,
        ensures
            r == estimate(self.segments as int, self.file_size, self.target),
            r.index < self.segments,
            r.start_byte <= self.target,
    {
        self.settle()
    }
}

/// The byte offsets at which the segments of a file start, with the file's size at the end:
/// they begin at 0 and every segment holds at least one byte.
pub open spec fn is_layout(bounds: Seq<u64>, segments: int, file_size: u64) -> bool {
    &&& bounds.len() == segments + 1
    &&& bounds[0] == 0
    &&& bounds[segments] == file_size
    &&& forall|i: int, j: int| 0 <= i < j <= segments ==> bounds[i] < bounds[j]
}

/// The header that segment `index` of a file with this layout carries.
pub open spec fn header_of(bounds: Seq<u64>, index: int) -> YencHeaders {
    YencHeaders {
        part_begin: bounds[index],
        part_end: bounds[index + 1],
        total_size: bounds.last(),
    }
}

/// The segment that holds the target, with the offset where it starts.
pub open spec fn is_right_segment(bounds: Seq<u64>, target: u64, found: FoundSegment) -> bool {
    &&& found.index + 1 < bounds.len()
    &&& found.start_byte == bounds[found.index as int]
    &&& bounds[found.index as int] <= target < bounds[found.index + 1]
}

/// The target lies in the segments still considered, of a file with this layout.
pub open spec fn is_honest(s: SegmentSearch, bounds: Seq<u64>) -> bool {
    &&& s.wf()
    &&& is_layout(bounds, s.segments as int, bounds.last())
    &&& bounds[s.lo_idx as int] <= s.target < bounds[s.hi_idx as int]
}

/// The search starts out honest, for every offset inside a file of at least one segment. The
/// size that it is told need not be the true one, as long as the offset lies before it.
pub proof fn law_search_starts_honest(
    bounds: Seq<u64>,
    segments: usize,
    size: u64,
    file_size: u64,
    target: u64,
)
    requires
        0 < segments,
        is_layout(bounds, segments as int, size),
        0 < target < size,
        target < file_size,
    ensures
        is_honest(SegmentSearch::initial(segments, file_size, target), bounds),
{
}

/// A header that tells the truth ends an honest search at the segment that holds the
/// target, or leaves an honest search over fewer segments.
pub proof fn law_probe_narrows_or_finds(s: SegmentSearch, bounds: Seq<u64>, index: usize)
    requires
        is_honest(s, bounds),
        s.lo_idx <= index < s.hi_idx,
    ensures
        match s.observed(index, header_of(bounds, index as int)) {
            SearchStep::Found(f) => is_right_segment(bounds, s.target, f),
            SearchStep::Probe(t) => {
                &&& is_honest(t, bounds)
                &&& t.target == s.target
                &&& t.hi_idx - t.lo_idx < s.hi_idx - s.lo_idx
            },
            SearchStep::NoSegments => false,
        },
{
    if bounds[index + 1] <= s.target && index + 1 < s.hi_idx {
        assert(bounds[index + 1] < bounds[s.hi_idx as int]);
    }
}

/// Where a search ends when every header tells the truth, for any way of guessing.
pub open spec fn outcome(
    s: SegmentSearch,
    bounds: Seq<u64>,
    guess: spec_fn(SegmentSearch) -> int,
) -> FoundSegment
    decreases s.hi_idx - s.lo_idx,
{
    let index = s.clamped(guess(s)) as usize;
    match s.observed(index, header_of(bounds, index as int)) {
        SearchStep::Found(f) => f,
        SearchStep::Probe(t) => if 0 <= t.hi_idx - t.lo_idx < s.hi_idx - s.lo_idx {
            outcome(t, bounds, guess)
        } else {
            arbitrary()
        },
        SearchStep::NoSegments => arbitrary(),
    }
}

/// Whatever the guesses are and however the segments are laid out, the search ends at the
/// segment that holds the target.
pub proof fn law_search_finds(
    s: SegmentSearch,
    bounds: Seq<u64>,
    guess: spec_fn(SegmentSearch) -> int,
)
    requires
        is_honest(s, bounds),
    ensures
        is_right_segment(bounds, s.target, outcome(s, bounds, guess)),
    decreases s.hi_idx - s.lo_idx,
{
    let index = s.clamped(guess(s)) as usize;
    law_probe_narrows_or_finds(s, bounds, index);
    match s.observed(index, header_of(bounds, index as int)) {
        SearchStep::Found(f) => {},
        SearchStep::Probe(t) => {
            law_search_finds(t, bounds, guess);
        },
        SearchStep::NoSegments => {},
    }
}

/// Where the target lies behind all segments, the search ends behind the last one.
pub proof fn law_search_finds_the_end(
    s: SegmentSearch,
    bounds: Seq<u64>,
    guess: spec_fn(SegmentSearch) -> int,
)
    requires
        s.wf(),
        is_layout(bounds, s.segments as int, bounds.last()),
        s.hi_idx == s.segments,
        bounds.last() <= s.target,
    ensures
        outcome(s, bounds, guess) == (FoundSegment {
            index: s.segments,
            start_byte: bounds.last(),
        }),
    decreases s.hi_idx - s.lo_idx,
{
    let index = s.clamped(guess(s)) as usize;
    let n = s.segments as int;
    assert(bounds[index + 1] <= bounds[n]) by {
        if index + 1 < n {
            assert(bounds[index + 1] < bounds[n]);
        }
    }
    match s.observed(index, header_of(bounds, index as int)) {
        SearchStep::Found(f) => {},
        SearchStep::Probe(t) => {
            law_search_finds_the_end(t, bounds, guess);
        },
        SearchStep::NoSegments => {},
    }
}

/// The estimate never starts after the target, so that nothing asked for is skipped.
pub proof fn law_estimate_starts_before_target(segments: usize, file_size: u64, target: u64)
    requires
        0 < segments,
    ensures
        estimate(segments as int, file_size, target).index < segments,
        estimate(segments as int, file_size, target).start_byte <= target,
{
    lemma_estimate(segments as int, file_size, target);
}

/// Where a seek goes, as in the standard library's enumeration of that name.
#[derive(Clone, Copy, Debug, PartialEq, Eq, Structural)]
pub enum SeekFrom {
    Start(u64),
    End(i64),
    Current(i64),
}

/// Why a seek was refused.
#[derive(Clone, Copy, Debug, PartialEq, Eq, Structural)]
pub enum SeekError {
    /// Seek to a negative position.
    InvalidInput,
}

/// What a reader of the stream does next.
#[derive(Clone, Copy, Debug, PartialEq, Eq, Structural)]
pub enum ReadPlan {
    /// There is no article stream to read from.
    Eof,
    /// Carry this search to its end, and say where it ended.
    Search(SegmentSearch),
    /// Read at most this many bytes from the article stream and drop them.
    Discard(usize),
    /// Read from the article stream into the caller's buffer.
    Forward,
}

/// How many bytes are dropped at a time.
pub const DISCARD_CHUNK: u64 = 65536;

/// Where an article stream is opened.
pub enum Opening {
    /// Nowhere: there is nothing to read.
    Nothing,
    At(FoundSegment),
    /// Where this search ends.
    Search(SegmentSearch),
}

/// A stream over the segments of one file that can be read from any offset.
#[derive(Clone, Debug, PartialEq, Eq)]
pub struct SeekableSegmentStream {
    pub segment_ids: Vec<String>,
    pub file_size: u64,
    pub lookahead: usize,
    /// The offset of the next byte that a reader gets.
    pub position: u64,
    /// The segment from which the running article stream was opened.
    pub inner: Option<usize>,
    /// How many bytes of the article stream are still to be dropped.
    pub discard_bytes: u64,
    /// The offset of a seek that has been asked for and not been completed.
    pub pending_seek: Option<u64>,
    /// Whether an article stream has to be opened before the next read.
    pub needs_resolve: bool,
}

/// The offset that a seek asks for, before it is held inside the file.
pub open spec fn seek_offset(position: u64, file_size: u64, pos: SeekFrom) -> int {
    match pos {
        SeekFrom::Start(offset) => offset as int,
        SeekFrom::Current(delta) => num::as_signed(position) + delta,
        SeekFrom::End(delta) => num::as_signed(file_size) + delta,
    }
}

impl SeekableSegmentStream {
    /// The article stream, where there is one, was opened at a place inside the file.
    pub open spec fn wf(self) -> bool {
        self.inner matches Some(i) ==> i <= self.segment_ids@.len()
    }

    /// The stream once a seek that it does not refuse has been asked for.
    pub open spec fn seeking(self, pos: SeekFrom) -> Self {
        let offset = seek_offset(self.position, self.file_size, pos);
        SeekableSegmentStream {
            pending_seek: Some(
                if offset < self.file_size {
                    offset as u64
                } else {
                    self.file_size
                },
            ),
            ..self
        }
    }

    /// The stream once the seek that was asked for is completed.
    pub open spec fn completed(self) -> Self {
        match self.pending_seek {
            None => self,
            Some(target) => SeekableSegmentStream {
                position: target,
                inner: None,
                discard_bytes: 0,
                pending_seek: None,
                needs_resolve: true,
                ..self
            },
        }
    }

    /// The stream is at the start of the file, with no article stream yet.
    pub open spec fn is_fresh(
        self,
        segment_ids: Vec<String>,
        file_size: u64,
        lookahead: usize,
    ) -> bool {
        self == (SeekableSegmentStream {
            segment_ids,
            file_size,
            lookahead,
            position: 0,
            inner: None,
            discard_bytes: 0,
            pending_seek: None,
            needs_resolve: true,
        })
    }

    /// Where the article stream is opened: at the start of the file its first segment, at
    /// its end nowhere, and else the segment that holds the position.
    pub open spec fn opening(self) -> Opening {
        if self.position == 0 {
            Opening::At(FoundSegment { index: 0, start_byte: 0 })
        } else if self.position >= self.file_size {
            Opening::Nothing
        } else {
            match first_step(self.segment_ids@.len() as usize, self.file_size, self.position) {
                SearchStep::NoSegments => Opening::Nothing,
                SearchStep::Found(f) => Opening::At(f),
                SearchStep::Probe(s) => Opening::Search(s),
            }
        }
    }

    /// The stream once its article stream is opened: what the segment holds before the
    /// position is to be dropped.
    pub open spec fn open_at(self, found: FoundSegment) -> Self {
        SeekableSegmentStream {
            inner: Some(found.index),
            discard_bytes: (self.position - found.start_byte) as u64,
            needs_resolve: false,
            ..self
        }
    }

    /// The stream with nothing to read.
    pub open spec fn open_nowhere(self) -> Self {
        SeekableSegmentStream { inner: None, discard_bytes: 0, needs_resolve: false, ..self }
    }

    /// The stream with its article stream opened, unless that needs a search.
    pub open spec fn opened(self) -> Self {
        match self.opening() {
            Opening::Nothing => self.open_nowhere(),
            Opening::At(f) => self.open_at(f),
            Opening::Search(_) => self,
        }
    }

    /// How the next read goes.
    pub open spec fn plan(self) -> ReadPlan {
        match self.opening() {
            Opening::Search(s) if self.needs_resolve => ReadPlan::Search(s),
            _ => if self.inner is None {
                ReadPlan::Eof
            } else if self.discard_bytes > 0 {
                ReadPlan::Discard(
                    if self.discard_bytes < DISCARD_CHUNK {
                        self.discard_bytes as usize
                    } else {
                        DISCARD_CHUNK as usize
                    },
                )
            } else {
                ReadPlan::Forward
            },
        }
    }

    /// A stream at the start of the file, with no article stream yet.
    pub fn new(segment_ids: Vec<String>, file_size: u64, lookahead: usize) -> (r: Self)
        ensures
            r.wf(),
            r.is_fresh(segment_ids, file_size, lookahead),
    {
        SeekableSegmentStream {
            segment_ids,
            file_size,
            lookahead,
            position: 0,
            inner: None,
            discard_bytes: 0,
            pending_seek: None,
            needs_resolve: true,
        }
    }

    /// Asks for a seek. It is refused where it leads before the start of the file, and
    /// held at the end of the file where it leads behind it.
    pub fn start_seek(&mut self, pos: SeekFrom) -> (r: Result<(), SeekError>)
        requires
            !(pos is Start) ==> i64::MIN <= seek_offset(
                old(self).position,
                old(self).file_size,
                pos,
            ) <= i64::MAX,
        ensures
            r is Err <==> seek_offset(old(self).position, old(self).file_size, pos) < 0,
            r is Err ==> *final(self) == *old(self),
            r is Ok ==> *final(self) == old(self).seeking(pos),
    {
        let target: u64 = match pos {
            SeekFrom::Start(offset) => offset,
            SeekFrom::Current(delta) => {
                let t: i64 = num::to_signed(self.position) + delta;
                if t < 0 {
                    return Err(SeekError::InvalidInput);
                }
                t as u64
            },
            SeekFrom::End(delta) => {
                let t: i64 = num::to_signed(self.file_size) + delta;
                if t < 0 {
                    return Err(SeekError::InvalidInput);
                }
                t as u64
            },
        };
        let held: u64 = if target < self.file_size {
            target
        } else {
            self.file_size
        };
        self.pending_seek = Some(held);
        Ok(())
    }

    /// Completes the seek that was asked for, and says where the stream now is. Without
    /// one the stream stays as it is.
    pub fn poll_complete(&mut self) -> (r: u64)
        ensures
            r == final(self).position,
            *final(self) == old(self).completed(),
    {
        match self.pending_seek {
            None => self.position,
            Some(target) => {
                self.pending_seek = None;
                self.inner = None;
                self.discard_bytes = 0;
                self.position = target;
                self.needs_resolve = true;
                target
            },
        }
    }

    /// Opens the article stream where that needs no search, and else returns the search.
    pub fn start_resolve(&mut self) -> (r: Option<SegmentSearch>)
        ensures
            *final(self) == old(self).opened(),
            match old(self).opening() {
                Opening::Search(s) => r == Some(s) && s.wf() && s.segments
                    == old(self).segment_ids@.len() && s.target == old(self).position,
                _ => r is None,
            },
            old(self).wf() ==> final(self).wf(),
    {
        let target: u64 = self.position;
        if target == 0 {
            self.resolved(FoundSegment { index: 0, start_byte: 0 });
            return None;
        }
        if target < self.file_size {
            match find_segment(self.segment_ids.len(), self.file_size, target) {
                SearchStep::Found(found) => {
                    self.resolved(found);
                    return None;
                },
                SearchStep::Probe(search) => {
                    return Some(search);
                },
                SearchStep::NoSegments => {},
            }
        }
        self.inner = None;
        self.discard_bytes = 0;
        self.needs_resolve = false;
        None
    }

    /// Opens the article stream at the segment that a search ended at.
    pub fn resolved(&mut self, found: FoundSegment)
        requires
            found.index <= old(self).segment_ids@.len(),
            found.start_byte <= old(self).position,
        ensures
            *final(self) == old(self).open_at(found),
            final(self).wf(),
    {
        self.discard_bytes = self.position - found.start_byte;
        self.inner = Some(found.index);
        self.needs_resolve = false;
    }

    /// The segments that an article stream opened at `from` reads.
    pub fn remaining_segments(&self, from: usize) -> (r: Vec<String>)
        requires
            from <= self.segment_ids@.len(),
        ensures
            r@ == self.segment_ids@.subrange(from as int, self.segment_ids@.len() as int),
    {
        let mut r: Vec<String> = Vec::new();
        let mut i: usize = from;
        while i < self.segment_ids.len()
            invariant
                from <= i <= self.segment_ids@.len(),
                r@ == self.segment_ids@.subrange(from as int, i as int),
            decreases self.segment_ids@.len() - i,
        {
            r.push(self.segment_ids[i].clone());
            assert(self.segment_ids@.subrange(from as int, i + 1) =~= self.segment_ids@.subrange(
                from as int,
                i as int,
            ).push(self.segment_ids@[i as int]));
            i += 1;
        }
        r
    }

    /// Decides how the next read goes: it opens the article stream where that is due,
    /// drops bytes while some are to be dropped, and else forwards.
    pub fn poll_read(&mut self) -> (r: ReadPlan)
        requires
            old(self).wf(),
        ensures
            final(self).wf(),
            *final(self) == (if old(self).needs_resolve {
                old(self).opened()
            } else {
                *old(self)
            }),
            r == final(self).plan(),
            r matches ReadPlan::Search(s) ==> s.wf() && s.segments == old(self).segment_ids@.len()
                && s.target == old(self).position,
    {
        if self.needs_resolve {
            if let Some(search) = self.start_resolve() {
                return ReadPlan::Search(search);
            }
        }
        match self.inner {
            None => ReadPlan::Eof,
            Some(_) => if self.discard_bytes > 0 {
                if self.discard_bytes < DISCARD_CHUNK {
                    ReadPlan::Discard(self.discard_bytes as usize)
                } else {
                    ReadPlan::Discard(DISCARD_CHUNK as usize)
                }
            } else {
                ReadPlan::Forward
            },
        }
    }

    /// Takes in that `filled` bytes were read to be dropped, and says whether to read
    /// again: not when the article stream is at its end.
    pub fn discarded(&mut self, filled: usize) -> (again: bool)
        requires
            filled <= old(self).discard_bytes,
        ensures
            again == (filled > 0),
            *final(self) == (SeekableSegmentStream {
                discard_bytes: (old(self).discard_bytes - filled) as u64,
                ..*old(self)
            }),
    {
        if filled == 0 {
            return false;
        }
        self.discard_bytes = self.discard_bytes - filled as u64;
        true
    }

    /// Takes in that `read` bytes were forwarded.
    pub fn forwarded(&mut self, read: usize)
        requires
            old(self).position + read <= u64::MAX,
        ensures
            *final(self) == (SeekableSegmentStream {
                position: (old(self).position + read) as u64,
                ..*old(self)
            }),
    {
        self.position = self.position + read as u64;
    }
}

/// A seek that is asked for and completed leaves the stream at the offset asked for, or at
/// the end of the file where that offset lies behind it. The next read opens a new article
/// stream, and the file itself is untouched.
pub proof fn law_seek_moves_to_offset(s: SeekableSegmentStream, pos: SeekFrom)
    requires
        seek_offset(s.position, s.file_size, pos) >= 0,
    ensures
        ({
            let offset = seek_offset(s.position, s.file_size, pos);
            let after = s.seeking(pos).completed();
            &&& after.position == (if offset < s.file_size {
                offset
            } else {
                s.file_size as int
            })
            &&& after.needs_resolve
            &&& after.inner is None
            &&& after.pending_seek is None
            &&& after.segment_ids == s.segment_ids
            &&& after.file_size == s.file_size
        }),
{
}

/// A seek from the current position adds to the seek before it: after a seek to an offset
/// inside the file, moving on by `delta` leads where a seek to the sum leads.
pub proof fn law_relative_seek_adds(s: SeekableSegmentStream, offset: u64, delta: i64)
    requires
        offset <= s.file_size <= i64::MAX,
        0 <= offset + delta <= i64::MAX,
    ensures
        s.seeking(SeekFrom::Start(offset)).completed().seeking(
            SeekFrom::Current(delta),
        ).completed() == s.seeking(SeekFrom::Start((offset + delta) as u64)).completed(),
{
}

/// A stream that is being read, the articles that it reads from, and what its reader has got.
pub struct Reading {
    pub stream: SeekableSegmentStream,
    pub articles: Progress,
    pub out: Seq<u8>,
}

/// One poll with `room` bytes of room, as `poll_read` plans it: bytes that are dropped are
/// noted by `discarded`, and bytes that the reader gets by `forwarded`.
pub open spec fn after_poll(v: Reading, room: nat) -> Reading {
    match v.stream.plan() {
        ReadPlan::Discard(count) => {
            let articles = multi_segment_stream::after_read(v.articles, count as int);
            let filled = articles.read.len() - v.articles.read.len();
            Reading {
                stream: SeekableSegmentStream {
                    discard_bytes: (v.stream.discard_bytes - filled) as u64,
                    ..v.stream
                },
                articles,
                out: v.out,
            }
        },
        ReadPlan::Forward => {
            let articles = multi_segment_stream::after_read(v.articles, room as int);
            let read = articles.read.skip(v.articles.read.len() as int);
            Reading {
                stream: SeekableSegmentStream {
                    position: (v.stream.position + read.len()) as u64,
                    ..v.stream
                },
                articles,
                out: v.out + read,
            }
        },
        _ => v,
    }
}

/// Polls with these amounts of room, one after the other.
pub open spec fn after_polls(v: Reading, rooms: Seq<nat>) -> Reading
    decreases rooms.len(),
{
    if rooms.len() == 0 {
        v
    } else {
        after_polls(after_poll(v, rooms[0]), rooms.drop_first())
    }
}

/// What the reader has got is what the articles hold behind the first `dropped` bytes.
spec fn is_faithful(v: Reading, origin: int, dropped: int, content: Seq<u8>) -> bool {
    &&& !v.stream.needs_resolve
    &&& v.stream.inner is Some
    &&& v.articles.read + v.articles.rest() == content
    &&& v.stream.position == origin + v.out.len()
    &&& origin + content.len() - dropped <= u64::MAX
    &&& 0 <= dropped <= content.len()
    &&& if v.stream.discard_bytes > 0 {
        v.out.len() == 0 && v.articles.read.len() + v.stream.discard_bytes == dropped
    } else {
        dropped <= v.articles.read.len() && v.out == v.articles.read.skip(dropped)
    }
}

proof fn lemma_poll_is_faithful(v: Reading, room: nat, origin: int, dropped: int, content: Seq<u8>)
    requires
        is_faithful(v, origin, dropped, content),
    ensures
        is_faithful(after_poll(v, room), origin, dropped, content),
{
    let w = after_poll(v, room);
    let n = v.articles.read.len() as int;
    match v.stream.plan() {
        ReadPlan::Discard(count) => {
            multi_segment_stream::law_read_takes_the_front(v.articles, count as int);
            if w.stream.discard_bytes == 0 {
                assert(w.out =~= w.articles.read.skip(dropped));
            }
        },
        ReadPlan::Forward => {
            multi_segment_stream::law_read_takes_the_front(v.articles, room as int);
            let before = v.articles.read;
            let after = w.articles.read;
            assert(after.take(n) =~= before);
            assert(v.stream.discard_bytes == 0);
            assert(after =~= before + after.skip(n));
            assert(w.out == before.skip(dropped) + after.skip(n));
            assert(w.out =~= (before + after.skip(n)).skip(dropped));
            assert((after + w.articles.rest()).len() == content.len());
        },
        _ => {},
    }
}

proof fn lemma_polls_are_faithful(
    v: Reading,
    rooms: Seq<nat>,
    origin: int,
    dropped: int,
    content: Seq<u8>,
)
    requires
        is_faithful(v, origin, dropped, content),
    ensures
        is_faithful(after_polls(v, rooms), origin, dropped, content),
    decreases rooms.len(),
{
    if rooms.len() > 0 {
        lemma_poll_is_faithful(v, rooms[0], origin, dropped, content);
        lemma_polls_are_faithful(after_poll(v, rooms[0]), rooms.drop_first(), origin, dropped, content);
    }
}

/// The segments of a file have the sizes that its layout says.
pub open spec fn has_layout(file: Seq<Seq<u8>>, bounds: Seq<u64>) -> bool {
    &&& is_layout(bounds, file.len() as int, bounds.last())
    &&& forall|i: int| 0 <= i < file.len() ==> (#[trigger] file[i]).len() == bounds[i + 1]
        - bounds[i]
}

/// The segments from one on hold what the file holds from that segment's start on.
proof fn lemma_segments_from(file: Seq<Seq<u8>>, bounds: Seq<u64>, index: int)
    requires
        has_layout(file, bounds),
        0 <= index <= file.len(),
    ensures
        multi_segment_stream::joined(file).len() == bounds.last(),
        multi_segment_stream::joined(file.skip(index)) == multi_segment_stream::joined(file).skip(
            bounds[index] as int,
        ),
    decreases file.len() - index,
{
    lemma_sizes(file, bounds, index);
    lemma_sizes(file, bounds, 0);
    assert(file.skip(0) =~= file);
    lemma_prefix(file, bounds, index);
}

/// The segments from one on are as long as the layout says.
proof fn lemma_sizes(file: Seq<Seq<u8>>, bounds: Seq<u64>, index: int)
    requires
        has_layout(file, bounds),
        0 <= index <= file.len(),
    ensures
        multi_segment_stream::joined(file.skip(index)).len() == bounds.last() - bounds[index],
    decreases file.len() - index,
{
    if index < file.len() {
        lemma_sizes(file, bounds, index + 1);
        assert(file.skip(index).drop_first() =~= file.skip(index + 1));
        assert(file.skip(index)[0] == file[index]);
    }
}

proof fn lemma_prefix(file: Seq<Seq<u8>>, bounds: Seq<u64>, index: int)
    requires
        has_layout(file, bounds),
        0 <= index <= file.len(),
        multi_segment_stream::joined(file).len() == bounds.last(),
    ensures
        multi_segment_stream::joined(file.skip(index)) == multi_segment_stream::joined(file).skip(
            bounds[index] as int,
        ),
    decreases index,
{
    let all = multi_segment_stream::joined(file);
    if index == 0 {
        assert(file.skip(0) =~= file);
        assert(all.skip(0) =~= all);
    } else {
        lemma_prefix(file, bounds, index - 1);
        let before = multi_segment_stream::joined(file.skip(index - 1));
        let after = multi_segment_stream::joined(file.skip(index));
        assert(file.skip(index - 1).drop_first() =~= file.skip(index));
        assert(file.skip(index - 1)[0] == file[index - 1]);
        assert(before == file[index - 1] + after);
        assert(after =~= before.skip(file[index - 1].len() as int));
        assert(bounds[index - 1] < bounds[index]);
        if index < file.len() {
            assert(bounds[index] < bounds[file.len() as int]);
        }
        assert(after =~= all.skip(bounds[index] as int));
    }
}

impl SeekableSegmentStream {
    /// The stream with its article stream opened, where every header that a search looks at
    /// tells the truth.
    pub open spec fn opened_in(
        self,
        bounds: Seq<u64>,
        guess: spec_fn(SegmentSearch) -> int,
    ) -> Self {
        match self.opening() {
            Opening::Search(s) => self.open_at(outcome(s, bounds, guess)),
            _ => self.opened(),
        }
    }

    /// The stream as it is read: opened, with the articles of the segments that it reads.
    pub open spec fn reading(
        self,
        file: Seq<Seq<u8>>,
        bounds: Seq<u64>,
        guess: spec_fn(SegmentSearch) -> int,
    ) -> Reading {
        let stream = self.opened_in(bounds, guess);
        Reading {
            stream,
            articles: Progress::initial(
                multi_segment_stream::all_had(
                    file.skip(
                        match stream.inner {
                            Some(i) => i as int,
                            None => file.len() as int,
                        },
                    ),
                ),
            ),
            out: Seq::empty(),
        }
    }
}

/// A read after a seek to an offset gives the file's bytes from that offset on, and no
/// others, however the segments are laid out and whatever room each read has. When the
/// articles are at their end, the reader has got all of them. The size that the stream was
/// told need not be the true one, as long as the offset lies before it: behind the true end
/// there is nothing to read.
pub proof fn law_read_after_seek(
    s: SeekableSegmentStream,
    offset: u64,
    file: Seq<Seq<u8>>,
    bounds: Seq<u64>,
    guess: spec_fn(SegmentSearch) -> int,
    rooms: Seq<nat>,
)
    requires
        has_layout(file, bounds),
        s.segment_ids@.len() == file.len(),
        file.len() <= usize::MAX,
        offset < s.file_size,
    ensures
        ({
            let sought = s.seeking(SeekFrom::Start(offset)).completed();
            let end = after_polls(sought.reading(file, bounds, guess), rooms);
            let content = multi_segment_stream::joined(file);
            &&& end.stream.position == offset + end.out.len()
            &&& if offset < content.len() {
                &&& offset + end.out.len() <= content.len()
                &&& end.out == content.subrange(offset as int, offset + end.out.len())
                &&& end.articles.done && end.articles.pending.len() == 0 ==> end.out
                    == content.skip(offset as int)
            } else {
                end.out.len() == 0
            }
        }),
{
    if offset < bounds.last() {
        lemma_read_inside(s, offset, file, bounds, guess, rooms);
        lemma_segments_from(file, bounds, 0);
    } else {
        lemma_read_behind(s, offset, file, bounds, guess, rooms);
        lemma_segments_from(file, bounds, 0);
    }
}

/// Polls of a stream behind the end of its articles give nothing.
proof fn lemma_polls_give_nothing(v: Reading, rooms: Seq<nat>)
    requires
        v.articles.pending.len() == 0,
        v.articles.incoming.len() == 0,
        !v.stream.needs_resolve,
    ensures
        after_polls(v, rooms).out == v.out,
        after_polls(v, rooms).stream.position == v.stream.position,
    decreases rooms.len(),
{
    if rooms.len() > 0 {
        let w = after_poll(v, rooms[0]);
        assert(v.articles.read.skip(v.articles.read.len() as int) =~= Seq::empty());
        assert(v.out + Seq::<u8>::empty() =~= v.out);
        assert(w.out =~= v.out);
        lemma_polls_give_nothing(w, rooms.drop_first());
    }
}

proof fn lemma_read_behind(
    s: SeekableSegmentStream,
    offset: u64,
    file: Seq<Seq<u8>>,
    bounds: Seq<u64>,
    guess: spec_fn(SegmentSearch) -> int,
    rooms: Seq<nat>,
)
    requires
        has_layout(file, bounds),
        s.segment_ids@.len() == file.len(),
        file.len() <= usize::MAX,
        bounds.last() <= offset < s.file_size,
    ensures
        ({
            let sought = s.seeking(SeekFrom::Start(offset)).completed();
            let end = after_polls(sought.reading(file, bounds, guess), rooms);
            end.out.len() == 0 && end.stream.position == offset
        }),
{
    let sought = s.seeking(SeekFrom::Start(offset)).completed();
    let start = sought.reading(file, bounds, guess);
    let n = file.len() as usize;
    if n > 0 {
        assert(bounds[0] < bounds[n as int]);
        law_search_finds_the_end(SegmentSearch::initial(n, s.file_size, offset), bounds, guess);
    }
    assert(multi_segment_stream::all_had(file.skip(file.len() as int)) =~= Seq::empty());
    assert(start.articles.incoming =~= Seq::empty());
    lemma_polls_give_nothing(start, rooms);
}

proof fn lemma_read_inside(
    s: SeekableSegmentStream,
    offset: u64,
    file: Seq<Seq<u8>>,
    bounds: Seq<u64>,
    guess: spec_fn(SegmentSearch) -> int,
    rooms: Seq<nat>,
)
    requires
        has_layout(file, bounds),
        s.segment_ids@.len() == file.len(),
        file.len() <= usize::MAX,
        offset < bounds.last(),
        offset < s.file_size,
    ensures
        ({
            let sought = s.seeking(SeekFrom::Start(offset)).completed();
            let end = after_polls(sought.reading(file, bounds, guess), rooms);
            let content = multi_segment_stream::joined(file);
            &&& offset + end.out.len() <= content.len()
            &&& end.out == content.subrange(offset as int, offset + end.out.len())
            &&& end.stream.position == offset + end.out.len()
            &&& end.articles.done && end.articles.pending.len() == 0 ==> end.out == content.skip(
                offset as int,
            )
        }),
{
    let sought = s.seeking(SeekFrom::Start(offset)).completed();
    let opened = sought.opened_in(bounds, guess);
    let content = multi_segment_stream::joined(file);
    assert(sought.position == offset);
    if offset > 0 {
        let n = file.len() as usize;
        assert(n > 0);
        law_search_starts_honest(bounds, n, bounds.last(), s.file_size, offset);
        let search = SegmentSearch::initial(n, s.file_size, offset);
        law_search_finds(search, bounds, guess);
        assert(is_right_segment(bounds, offset, outcome(search, bounds, guess)));
    } else {
        assert(bounds[0] < bounds[file.len() as int]);
        if file.len() > 1 {
            assert(bounds[0] < bounds[1]);
        }
    }
    let index = opened.inner->0 as int;
    assert(0 <= index < file.len());
    assert(bounds[index] <= offset < bounds[index + 1]);
    let dropped = offset - bounds[index];
    assert(opened.discard_bytes == dropped);
    lemma_segments_from(file, bounds, index);
    let from = multi_segment_stream::joined(file.skip(index));
    multi_segment_stream::lemma_intact(file.skip(index));
    let start = sought.reading(file, bounds, guess);
    assert(start.articles.read + start.articles.rest() =~= from);
    if index + 1 < file.len() {
        assert(bounds[index + 1] < bounds[file.len() as int]);
    }
    assert(from.len() == bounds.last() - bounds[index]);
    if dropped == 0 {
        assert(start.out =~= start.articles.read.skip(0));
    }
    lemma_polls_are_faithful(start, rooms, offset as int, dropped, from);
    let end = after_polls(start, rooms);
    let got = end.articles.read;
    assert((got + end.articles.rest()).len() == from.len());
    assert forall|i: int| 0 <= i < end.out.len() implies #[trigger] end.out[i] == content[offset
        + i] by {
        assert(end.out[i] == got[dropped + i]);
        assert((got + end.articles.rest())[dropped + i] == got[dropped + i]);
        assert(from[dropped + i] == content.skip(bounds[index] as int)[dropped + i]);
    }
    assert(end.out =~= content.subrange(offset as int, offset + end.out.len()));
    if end.articles.done && end.articles.pending.len() == 0 {
        assert(end.articles.rest().len() == 0);
        assert(got.len() == from.len());
        assert(end.out =~= content.skip(offset as int));
    }
}

/// A range of a file is served exactly: of what is read after a seek to its start, the
/// first `length` bytes are those of the range.
pub proof fn law_range_holds_its_bytes(
    s: SeekableSegmentStream,
    start: u64,
    length: u64,
    file: Seq<Seq<u8>>,
    bounds: Seq<u64>,
    guess: spec_fn(SegmentSearch) -> int,
    rooms: Seq<nat>,
)
    requires
        has_layout(file, bounds),
        s.segment_ids@.len() == file.len(),
        file.len() <= usize::MAX,
        0 < length,
        start + length <= bounds.last(),
        start < s.file_size,
    ensures
        ({
            let sought = s.seeking(SeekFrom::Start(start)).completed();
            let end = after_polls(sought.reading(file, bounds, guess), rooms);
            let content = multi_segment_stream::joined(file);
            &&& end.out.len() >= length ==> end.out.take(length as int) == content.subrange(
                start as int,
                start + length,
            )
            &&& end.articles.done && end.articles.pending.len() == 0 ==> end.out.len() >= length
        }),
{
    law_read_after_seek(s, start, file, bounds, guess, rooms);
    lemma_segments_from(file, bounds, 0);
    let sought = s.seeking(SeekFrom::Start(start)).completed();
    let end = after_polls(sought.reading(file, bounds, guess), rooms);
    let content = multi_segment_stream::joined(file);
    if end.out.len() >= length {
        assert(end.out.take(length as int) =~= content.subrange(start as int, start + length));
    }
}

} // verus!
