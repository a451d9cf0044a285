//! What holds of the streams as a whole. Each law speaks of the functions themselves:
//! `call_ensures(f, args, r)` says that `f` returns `r` for these arguments, and a mutable
//! argument is `old(..)` before the call and `final(..)` after it.

use vstd::prelude::*;

use crate::stream::multi_segment_stream::{MultiSegmentStream, SegmentRead};
use crate::stream::provider;
use crate::stream::provider::{
    Disposition, Failover, ServerFailure, StreamError, StreamErrorView, UsenetArticleProvider,
    YencDecoded, YencHeaders,
};
use crate::stream::seekable_segment_stream;
use crate::stream::seekable_segment_stream::{
    FoundSegment, ReadPlan, SearchStep, SeekError, SeekFrom, SeekableSegmentStream, SegmentSearch,
};

verus! {

/// The headers of an article are those that it declares: where it begins and ends in the
/// file, and how long the file is. What it does not declare is 0.
pub proof fn law_headers_are_those_declared(d: YencDecoded, r: Result<YencHeaders, StreamError>)
    requires
        call_ensures(provider::decoded_headers, (Ok(d),), r),
    ensures
        r is Ok,
        d.part_begin matches Some(b) ==> r->Ok_0.part_begin == b,
        d.part_end matches Some(e) ==> r->Ok_0.part_end == e,
        d.file_size matches Some(s) ==> r->Ok_0.total_size == s,
        d.part_begin is None ==> r->Ok_0.part_begin == 0,
        d.part_end is None ==> r->Ok_0.part_end == 0,
        d.file_size is None ==> r->Ok_0.total_size == 0,
{
}

/// Whether an article declares that it is the part number `index` of a file with this
/// layout.
pub open spec fn declares(raw: Seq<u8>, bounds: Seq<u64>, index: int) -> bool {
    &&& provider::yenc_decoded(raw) matches Ok(d)
    &&& d.part_begin == Some(bounds[index])
    &&& d.part_end == Some(bounds[index + 1])
    &&& d.file_size == Some(bounds.last())
}

/// The headers that are read from the articles of a file are those of its layout.
pub proof fn law_articles_show_the_layout(
    request: Failover,
    raw: Vec<u8>,
    bounds: Seq<u64>,
    index: int,
    r: Result<YencHeaders, StreamError>,
)
    requires
        declares(raw@, bounds, index),
        call_ensures(UsenetArticleProvider::yenc_headers, (request, Some(Some(raw))), r),
    ensures
        r == Ok::<YencHeaders, StreamError>(
            YencHeaders {
                part_begin: bounds[index],
                part_end: bounds[index + 1],
                total_size: bounds.last(),
            },
        ),
        r == Ok::<YencHeaders, StreamError>(seekable_segment_stream::header_of(bounds, index)),
{
}

/// A search that looks at the article of one of the segments still considered ends at the
/// segment that holds the target, or goes on over fewer segments, among which that one is.
pub proof fn law_an_article_narrows_the_search(
    s: SegmentSearch,
    bounds: Seq<u64>,
    index: usize,
    request: Failover,
    raw: Vec<u8>,
    headers: Result<YencHeaders, StreamError>,
    r: SearchStep,
)
    requires
        seekable_segment_stream::is_layout(bounds, s.segments as int, bounds.last()),
        s.wf(),
        bounds[s.lo_idx as int] <= s.target < bounds[s.hi_idx as int],
        s.lo_idx <= index < s.hi_idx,
        declares(raw@, bounds, index as int),
        call_ensures(UsenetArticleProvider::yenc_headers, (request, Some(Some(raw))), headers),
        headers is Ok,
        call_ensures(SegmentSearch::observe, (s, index, &headers->Ok_0), r),
    ensures
        match r {
            SearchStep::Found(f) => {
                &&& f.index < s.segments
                &&& f.start_byte == bounds[f.index as int]
                &&& bounds[f.index as int] <= s.target < bounds[f.index + 1]
            },
            SearchStep::Probe(t) => {
                &&& t.hi_idx - t.lo_idx < s.hi_idx - s.lo_idx
                &&& bounds[t.lo_idx as int] <= t.target < bounds[t.hi_idx as int]
                &&& t.target == s.target
                &&& t.segments == s.segments
                &&& t.file_size == s.file_size
            },
            SearchStep::NoSegments => false,
        },
{
    law_articles_show_the_layout(request, raw, bounds, index as int, headers);
    if bounds[index + 1] <= s.target && index + 1 < s.hi_idx {
        assert(bounds[index + 1] < bounds[s.hi_idx as int]);
    }
}

/// The payload of an article and the part that it is are the same bytes, and they are what
/// the article decodes to, with the name that it gives its file.
pub proof fn law_payload_and_part_agree(
    a: Failover,
    b: Failover,
    raw: Vec<u8>,
    payload: Result<Vec<u8>, StreamError>,
    part: Result<YencDecoded, StreamError>,
)
    requires
        call_ensures(UsenetArticleProvider::fetch_decoded, (a, Some(Some(raw))), payload),
        call_ensures(UsenetArticleProvider::fetch_part, (b, Some(Some(raw))), part),
    ensures
        payload is Ok <==> part is Ok,
        payload is Ok <==> provider::yenc_decoded(raw@) is Ok,
        payload is Ok ==> payload->Ok_0@ == part->Ok_0.data@,
        payload is Ok ==> payload->Ok_0@ == provider::yenc_decoded(raw@)->Ok_0.data,
        part is Ok ==> part->Ok_0@ == provider::yenc_decoded(raw@)->Ok_0,
        payload is Err ==> payload->Err_0@ == part->Err_0@,
        payload is Err ==> payload->Err_0@ == StreamErrorView::YencDecode(
            provider::yenc_decoded(raw@)->Err_0,
        ),
{
}

/// An answer without a body is an error that names the article, whatever was asked for.
pub proof fn law_empty_answers_name_the_article(
    provider: &UsenetArticleProvider,
    id: &str,
    request: Failover,
    payload: Result<Vec<u8>, StreamError>,
    part: Result<YencDecoded, StreamError>,
    headers: Result<YencHeaders, StreamError>,
)
    requires
        call_ensures(UsenetArticleProvider::request, (provider, id), request),
        call_ensures(UsenetArticleProvider::fetch_decoded, (request, Some(None)), payload),
        call_ensures(UsenetArticleProvider::fetch_part, (request, Some(None)), part),
        call_ensures(UsenetArticleProvider::yenc_headers, (request, Some(None)), headers),
    ensures
        payload is Err && part is Err && headers is Err,
        payload->Err_0@ == part->Err_0@,
        payload->Err_0@ == headers->Err_0@,
        payload->Err_0@ == StreamErrorView::NntpError("empty response for article "@ + id@),
{
}

/// Servers are asked one after the other: the first one first, and after a failure the one
/// behind it, until there is none.
pub proof fn law_servers_are_asked_in_turn(
    provider: &UsenetArticleProvider,
    id: &str,
    request: Failover,
    first: Option<usize>,
    asked: &mut Failover,
    at: usize,
    failure: ServerFailure,
    disposition: Disposition,
    next: Option<usize>,
)
    requires
        call_ensures(UsenetArticleProvider::request, (provider, id), request),
        call_ensures(Failover::next_server, (&request,), first),
        call_ensures(Failover::next_server, (&*old(asked),), Some(at)),
        call_ensures(Failover::failed, (asked, failure), disposition),
        call_ensures(Failover::next_server, (&*final(asked),), next),
    ensures
        first == (if provider.connections@.len() > 0 {
            Some(0usize)
        } else {
            None
        }),
        next matches Some(n) ==> n == at + 1,
        next is Some ==> at + 1 < old(asked).servers(),
        next is None ==> at + 1 == old(asked).servers(),
        at < old(asked).servers(),
        final(asked).servers() == old(asked).servers(),
{
}

/// Only a connection whose server answered goes back to its pool; one that failed is closed.
pub proof fn law_failed_connections_are_closed(
    request: &mut Failover,
    failure: ServerFailure,
    r: Disposition,
)
    requires
        call_ensures(Failover::failed, (request, failure), r),
    ensures
        r == Disposition::Release <==> failure is NotFound,
        r == Disposition::Discard <==> failure is Nntp,
        r == Disposition::NotHeld <==> failure is Acquire,
{
}

/// A request that no server meets ends in the error of the one that failed last, and without
/// servers in one of its own. All that asks for the article sees the same error.
pub proof fn law_last_failure_is_reported(
    request: &mut Failover,
    failure: ServerFailure,
    disposition: Disposition,
    ended: StreamError,
    payload: Result<Vec<u8>, StreamError>,
    part: Result<YencDecoded, StreamError>,
    headers: Result<YencHeaders, StreamError>,
)
    requires
        call_ensures(Failover::failed, (request, failure), disposition),
        call_ensures(Failover::exhausted, (*final(request),), ended),
        call_ensures(UsenetArticleProvider::fetch_decoded, (*final(request), None), payload),
        call_ensures(UsenetArticleProvider::fetch_part, (*final(request), None), part),
        call_ensures(UsenetArticleProvider::yenc_headers, (*final(request), None), headers),
    ensures
        ended@ == (match failure {
            ServerFailure::Acquire(e) => StreamErrorView::NntpError(e@),
            ServerFailure::Nntp(e) => StreamErrorView::NntpError(e@),
            ServerFailure::NotFound => StreamErrorView::ArticleNotFound(old(request).article()),
        }),
        failure is NotFound <==> ended is ArticleNotFound,
        !(failure is NotFound) <==> ended is NntpError,
        payload is Err && payload->Err_0@ == ended@,
        part is Err && part->Err_0@ == ended@,
        headers is Err && headers->Err_0@ == ended@,
{
}

/// Without servers nothing can be had, and that is not said to mean that the article does
/// not exist.
pub proof fn law_no_servers_is_an_error(
    provider: &UsenetArticleProvider,
    id: &str,
    request: Failover,
    payload: Result<Vec<u8>, StreamError>,
    found: Result<bool, StreamError>,
)
    requires
        call_ensures(UsenetArticleProvider::request, (provider, id), request),
        call_ensures(UsenetArticleProvider::fetch_decoded, (request, None), payload),
        call_ensures(UsenetArticleProvider::stat, (request, None), found),
    ensures
        payload is Err && payload->Err_0@ == StreamErrorView::AllServersExhausted(id@),
        found is Err && found->Err_0@ == StreamErrorView::AllServersExhausted(id@),
        payload->Err_0 is AllServersExhausted,
        found->Err_0 is AllServersExhausted,
        request.article() == id@,
{
}

/// A server that failed may have the article: once one has failed, that others lack it does
/// not make it missing.
pub proof fn law_failure_outlasts_absence(
    first: &mut Failover,
    failure: ServerFailure,
    second: &mut Failover,
    a: Disposition,
    b: Disposition,
    found: Result<bool, StreamError>,
)
    requires
        !(failure is NotFound),
        call_ensures(Failover::failed, (first, failure), a),
        *old(second) == *final(first),
        call_ensures(Failover::failed, (second, ServerFailure::NotFound), b),
        call_ensures(UsenetArticleProvider::stat, (*final(second), None), found),
    ensures
        found is Err,
        found->Err_0@ == StreamErrorView::NntpError(
            match failure {
                ServerFailure::Acquire(e) => e@,
                ServerFailure::Nntp(e) => e@,
                ServerFailure::NotFound => arbitrary(),
            },
        ),
{
}

/// Where the only server lacks an article, it does not exist; where a server answers, it
/// exists if the answer says so.
pub proof fn law_answers_decide_existence(
    provider: &UsenetArticleProvider,
    id: &str,
    asked: &mut Failover,
    disposition: Disposition,
    found: Result<bool, StreamError>,
    code: u16,
    answered: Result<bool, StreamError>,
)
    requires
        call_ensures(UsenetArticleProvider::request, (provider, id), *old(asked)),
        call_ensures(Failover::failed, (asked, ServerFailure::NotFound), disposition),
        call_ensures(UsenetArticleProvider::stat, (*final(asked), None), found),
        call_ensures(UsenetArticleProvider::stat, (*old(asked), Some(code)), answered),
    ensures
        found == Ok::<bool, StreamError>(false),
        answered == Ok::<bool, StreamError>(code == 223),
{
}

/// One more server adds its connections, and none makes no connections.
pub proof fn law_connections_add_up(
    fewer: &UsenetArticleProvider,
    more: &UsenetArticleProvider,
    a: usize,
    b: usize,
)
    requires
        more.connections@.len() == fewer.connections@.len() + 1,
        more.connections@.drop_last() == fewer.connections@,
        call_ensures(UsenetArticleProvider::total_connections, (fewer,), a),
        call_ensures(UsenetArticleProvider::total_connections, (more,), b),
    ensures
        b == a + more.connections@.last(),
        fewer.connections@.len() == 0 ==> a == 0,
{
}

/// A provider whose servers were replaced is like one that was made with them.
pub proof fn law_replaced_servers_are_used(
    provider: &mut UsenetArticleProvider,
    connections: Vec<u16>,
    fresh: UsenetArticleProvider,
)
    requires
        call_ensures(UsenetArticleProvider::replace_pools, (provider, connections), ()),
        call_ensures(UsenetArticleProvider::new, (connections,), fresh),
    ensures
        *final(provider) == fresh,
        fresh.connections == connections,
{
}

/// A search starts over all segments of the file, and needs none for the first byte. A file
/// without segments has none to find.
pub proof fn law_search_starts_over_the_whole_file(
    segments: usize,
    file_size: u64,
    target: u64,
    r: SearchStep,
)
    requires
        call_ensures(seekable_segment_stream::find_segment, (segments, file_size, target), r),
    ensures
        r is NoSegments <==> segments == 0,
        segments > 0 && target == 0 ==> r == SearchStep::Found(
            FoundSegment { index: 0, start_byte: 0 },
        ),
        segments > 0 && 0 < target < file_size ==> {
            &&& r matches SearchStep::Probe(s)
            &&& s.lo_idx == 0 && s.hi_idx == segments
            &&& s.lo_byte == 0 && s.hi_byte == file_size
            &&& s.target == target && s.segments == segments && s.file_size == file_size
        },
{
}

/// The segment that is looked at is the one guessed, where that is still considered, and
/// else the nearest that is.
pub proof fn law_guesses_are_held_inside(s: &SegmentSearch, guess: i64, r: usize)
    requires
        s.wf(),
        call_ensures(SegmentSearch::probe_index, (s, guess), r),
    ensures
        s.lo_idx <= r < s.hi_idx,
        s.lo_idx <= s.lo_idx + guess < s.hi_idx ==> r == s.lo_idx + guess,
        guess < 0 ==> r == s.lo_idx,
        s.lo_idx + guess >= s.hi_idx ==> r == s.hi_idx - 1,
{
}

/// A guess is made from how far the target lies into what is still considered.
pub proof fn law_guesses_are_made_from_the_rest(s: &SegmentSearch, r: (u64, u64, usize))
    requires
        s.wf(),
        call_ensures(SegmentSearch::interpolation, (s,), r),
    ensures
        s.lo_byte + r.0 == s.target,
        s.lo_byte + r.1 == s.hi_byte,
        s.lo_idx + r.2 == s.hi_idx,
{
}

/// Where a header cannot be fetched, the search ends one average segment before the target,
/// so that nothing asked for is skipped and little is read in vain.
pub proof fn law_estimate_is_near_the_target(s: &SegmentSearch, r: FoundSegment)
    requires
        s.wf(),
        s.file_size as int / s.segments as int > 0,
        call_ensures(SegmentSearch::probe_failed, (s,), r),
    ensures
        ({
            let avg = s.file_size as int / s.segments as int;
            &&& r.index < s.segments
            &&& r.start_byte == r.index * avg
            &&& r.start_byte <= s.target
            &&& r.index > 0 ==> r.start_byte + avg <= s.target
            &&& r.index + 2 < s.segments ==> s.target < r.start_byte + 2 * avg
        }),
{
    let avg = s.file_size as int / s.segments as int;
    let target = s.target as int;
    let q = target / avg;
    let k = r.index as int;
    seekable_segment_stream::law_estimate_starts_before_target(s.segments, s.file_size, s.target);
    assert(avg == seekable_segment_stream::average(s.segments as int, s.file_size));
    assert(k == seekable_segment_stream::estimated_index(s.segments as int, s.file_size, s.target));
    seekable_segment_stream::lemma_estimate(s.segments as int, s.file_size, s.target);
    assert(q * avg <= target < (q + 1) * avg) by (nonlinear_arith)
        requires
            q == target / avg,
            avg > 0,
            target >= 0,
    ;
    if k > 0 {
        assert((k + 1) * avg <= q * avg) by (nonlinear_arith)
            requires
                k + 1 <= q,
                avg > 0,
        ;
        assert((k + 1) * avg == k * avg + avg) by (nonlinear_arith);
    }
    if k + 2 < s.segments {
        assert((q + 1) * avg <= (k + 2) * avg) by (nonlinear_arith)
            requires
                q <= k + 1,
                avg > 0,
        ;
        assert((k + 2) * avg == k * avg + 2 * avg) by (nonlinear_arith);
    }
}

/// A seek that is completed leaves the stream where it was asked to go: from the start, from
/// the end or from where it was, and at the end of the file where that lies behind it. A
/// seek to before the start is refused, and changes nothing.
pub proof fn law_seek_goes_where_it_is_asked(
    s: &mut SeekableSegmentStream,
    pos: SeekFrom,
    asked: Result<(), SeekError>,
    t: &mut SeekableSegmentStream,
    at: u64,
)
    requires
        old(s).position <= i64::MAX,
        old(s).file_size <= i64::MAX,
        call_ensures(SeekableSegmentStream::start_seek, (s, pos), asked),
        *old(t) == *final(s),
        call_ensures(SeekableSegmentStream::poll_complete, (t,), at),
    ensures
        ({
            let wanted = match pos {
                SeekFrom::Start(n) => n as int,
                SeekFrom::End(d) => old(s).file_size + d,
                SeekFrom::Current(d) => old(s).position + d,
            };
            &&& asked is Err <==> wanted < 0
            &&& asked is Err ==> *final(s) == *old(s)
            &&& asked is Ok ==> at == final(t).position
            &&& asked is Ok && wanted <= old(s).file_size ==> at == wanted
            &&& asked is Ok && wanted > old(s).file_size ==> at == old(s).file_size
            &&& asked is Ok ==> final(t).needs_resolve && final(t).inner is None
                && final(t).discard_bytes == 0 && final(t).pending_seek is None
            &&& final(t).segment_ids == old(s).segment_ids
            &&& final(t).file_size == old(s).file_size
            &&& final(t).lookahead == old(s).lookahead
            &&& final(s).position == old(s).position
        }),
{
}

/// A stream that was made reads its file from the first byte on, without a search.
pub proof fn law_new_streams_start_at_the_beginning(
    segment_ids: Vec<String>,
    file_size: u64,
    lookahead: usize,
    s: &mut SeekableSegmentStream,
    r: ReadPlan,
)
    requires
        call_ensures(SeekableSegmentStream::new, (segment_ids, file_size, lookahead), *old(s)),
        call_ensures(SeekableSegmentStream::poll_read, (s,), r),
    ensures
        r == ReadPlan::Forward,
        final(s).inner == Some(0usize),
        final(s).position == 0,
        final(s).discard_bytes == 0,
        final(s).segment_ids == segment_ids,
        final(s).file_size == file_size,
        final(s).lookahead == lookahead,
{
}

/// Opening a stream at a segment leaves as many bytes to be dropped as that segment holds
/// before the position, and the position stays.
pub proof fn law_opening_drops_what_comes_before(
    s: &mut SeekableSegmentStream,
    found: FoundSegment,
)
    requires
        found.start_byte <= old(s).position,
        call_ensures(SeekableSegmentStream::resolved, (s, found), ()),
    ensures
        found.start_byte + final(s).discard_bytes == final(s).position,
        final(s).position == old(s).position,
        final(s).inner == Some(found.index),
        !final(s).needs_resolve,
        final(s).segment_ids == old(s).segment_ids,
{
}

/// A read that is planned on an open stream drops what is still to be dropped, never more,
/// and gives bytes only when nothing is. It moves nothing by itself.
pub proof fn law_reads_drop_before_they_give(s: &mut SeekableSegmentStream, r: ReadPlan)
    requires
        old(s).wf(),
        !old(s).needs_resolve,
        call_ensures(SeekableSegmentStream::poll_read, (s,), r),
    ensures
        *final(s) == *old(s),
        old(s).inner is None ==> r == ReadPlan::Eof,
        old(s).inner is Some && old(s).discard_bytes > 0 ==> (r matches ReadPlan::Discard(n) && 0
            < n <= old(s).discard_bytes && n <= 65536 && (n == 65536 || n
            == old(s).discard_bytes)),
        old(s).inner is Some && old(s).discard_bytes == 0 ==> r == ReadPlan::Forward,
{
}

/// A stream whose position lies behind its end has nothing to read, and one inside its file
/// looks for the segment that holds the position.
pub proof fn law_reads_open_where_the_position_is(s: &mut SeekableSegmentStream, r: ReadPlan)
    requires
        old(s).wf(),
        old(s).needs_resolve,
        old(s).position > 0,
        call_ensures(SeekableSegmentStream::poll_read, (s,), r),
    ensures
        old(s).position >= old(s).file_size ==> r == ReadPlan::Eof && final(s).inner is None,
        old(s).position < old(s).file_size && old(s).segment_ids@.len() == 0 ==> r
            == ReadPlan::Eof,
        old(s).position < old(s).file_size && old(s).segment_ids@.len() > 0 ==> {
            &&& r matches ReadPlan::Search(search)
            &&& search.target == old(s).position
            &&& search.segments == old(s).segment_ids@.len()
            &&& search.file_size == old(s).file_size
            &&& search.lo_idx == 0 && search.hi_idx == search.segments
            &&& *final(s) == *old(s)
        },
        final(s).position == old(s).position,
{
    assert(old(s).segment_ids.len() == old(s).segment_ids@.len());
}

/// Bytes that are dropped are counted off, and bytes that the reader gets move the position:
/// each by as many as there were.
pub proof fn law_bytes_are_counted(
    s: &mut SeekableSegmentStream,
    filled: usize,
    again: bool,
    t: &mut SeekableSegmentStream,
    read: usize,
)
    requires
        filled <= old(s).discard_bytes,
        old(t).position + read <= u64::MAX,
        call_ensures(SeekableSegmentStream::discarded, (s, filled), again),
        call_ensures(SeekableSegmentStream::forwarded, (t, read), ()),
    ensures
        final(s).discard_bytes + filled == old(s).discard_bytes,
        final(s).position == old(s).position,
        final(s).inner == old(s).inner,
        again <==> filled > 0,
        final(t).position == old(t).position + read,
        final(t).discard_bytes == old(t).discard_bytes,
        final(t).inner == old(t).inner,
{
}

/// An article stream that is opened at a segment reads that one and all that follow, in
/// their order.
pub proof fn law_remaining_segments_follow(
    s: &SeekableSegmentStream,
    from: usize,
    r: Vec<String>,
)
    requires
        from <= s.segment_ids@.len(),
        call_ensures(SeekableSegmentStream::remaining_segments, (s, from), r),
    ensures
        from + r@.len() == s.segment_ids@.len(),
        forall|i: int| 0 <= i < r@.len() ==> #[trigger] r@[i] == s.segment_ids@[from + i],
{
}

/// A read of what is kept takes from its front as much as there is room for, and the rest
/// stays: nothing is lost, and the count grows by what was taken.
pub proof fn law_kept_bytes_are_read_in_order(
    s: &mut MultiSegmentStream,
    room: usize,
    r: SegmentRead,
)
    requires
        old(s).pending().len() > 0,
        call_ensures(MultiSegmentStream::poll_read, (s, room), r),
    ensures
        ({
            &&& r matches SegmentRead::Bytes(v)
            &&& v@ + final(s).pending() == old(s).pending()
            &&& v@.len() <= room
            &&& final(s).pending().len() > 0 ==> v@.len() == room
            &&& final(s).count() == (old(s).count() + v@.len()) % 0x1_0000_0000_0000_0000
            &&& final(s).is_done() == old(s).is_done()
        }),
{
    let v = r->Bytes_0@;
    assert(v + final(s).pending() =~= old(s).pending());
}

/// Where nothing is kept, a stream that expects more asks for it, and one that does not is at
/// its end.
pub proof fn law_empty_streams_ask_or_end(s: &mut MultiSegmentStream, room: usize, r: SegmentRead)
    requires
        old(s).pending().len() == 0,
        call_ensures(MultiSegmentStream::poll_read, (s, room), r),
    ensures
        r is Eof <==> old(s).is_done(),
        r is Receive <==> !old(s).is_done(),
        *final(s) == *old(s),
{
}

/// Of an article that comes the reader gets the front, and the rest is kept. One that cannot
/// be had is an error that ends the stream, and so does the end of the articles.
pub proof fn law_articles_are_read_whole(
    s: &mut MultiSegmentStream,
    next: Option<Result<Vec<u8>, StreamError>>,
    room: usize,
    r: Result<Vec<u8>, StreamError>,
)
    requires
        old(s).pending().len() == 0,
        call_ensures(MultiSegmentStream::received, (s, next, room), r),
    ensures
        match next {
            Some(Ok(data)) => {
                &&& r is Ok
                &&& r->Ok_0@ + final(s).pending() == data@
                &&& r->Ok_0@.len() <= room
                &&& final(s).pending().len() > 0 ==> r->Ok_0@.len() == room
                &&& final(s).count() == (old(s).count() + r->Ok_0@.len())
                    % 0x1_0000_0000_0000_0000
                &&& final(s).is_done() == old(s).is_done()
            },
            Some(Err(e)) => r == Err::<Vec<u8>, StreamError>(e) && final(s).is_done()
                && final(s).pending().len() == 0 && final(s).count() == old(s).count(),
            None => r is Ok && r->Ok_0@.len() == 0 && final(s).is_done()
                && final(s).pending().len() == 0 && final(s).count() == old(s).count(),
        },
{
    if let Some(Ok(data)) = next {
        assert(r->Ok_0@ + final(s).pending() =~= data@);
    }
}

/// A new stream has read nothing, keeps nothing and expects more.
pub proof fn law_new_article_streams_are_empty(s: MultiSegmentStream, count: u64)
    requires
        call_ensures(MultiSegmentStream::new, (), s),
        call_ensures(MultiSegmentStream::bytes_read, (&s,), count),
    ensures
        count == 0,
        s.pending().len() == 0,
        !s.is_done(),
{
}

/// What is taken from an article is what the decoder makes of it: its bytes, its range, or
/// all of it. An answer without a body names the article.
pub proof fn law_articles_are_what_they_decode_to(
    raw: Vec<u8>,
    id: &str,
    payload: Result<Vec<u8>, StreamError>,
    part: Result<YencDecoded, StreamError>,
    headers: Result<YencHeaders, StreamError>,
    of_headers: Result<YencHeaders, StreamError>,
    of_payload: Result<Vec<u8>, StreamError>,
)
    requires
        call_ensures(provider::article_payload, (Some(raw), id), payload),
        call_ensures(provider::article_part, (Some(raw), id), part),
        call_ensures(provider::article_headers, (Some(raw), id), headers),
        part is Ok,
        call_ensures(provider::decoded_headers, (Ok(part->Ok_0),), of_headers),
        call_ensures(provider::decoded_payload, (Ok(part->Ok_0),), of_payload),
    ensures
        provider::yenc_decoded(raw@) is Ok,
        part->Ok_0@ == provider::yenc_decoded(raw@)->Ok_0,
        payload is Ok && payload->Ok_0@ == part->Ok_0.data@,
        of_payload is Ok && of_payload->Ok_0@ == part->Ok_0.data@,
        headers is Ok && headers == of_headers,
{
}

/// What cannot be decoded is an error with the decoder's text, and what is empty one that
/// names the article, whichever is asked for.
pub proof fn law_bad_articles_are_errors(
    data: Option<Vec<u8>>,
    id: &str,
    payload: Result<Vec<u8>, StreamError>,
    part: Result<YencDecoded, StreamError>,
    headers: Result<YencHeaders, StreamError>,
)
    requires
        data matches Some(raw) ==> provider::yenc_decoded(raw@) is Err,
        call_ensures(provider::article_payload, (data, id), payload),
        call_ensures(provider::article_part, (data, id), part),
        call_ensures(provider::article_headers, (data, id), headers),
    ensures
        payload is Err && part is Err && headers is Err,
        payload->Err_0@ == part->Err_0@,
        payload->Err_0@ == headers->Err_0@,
        data is None <==> payload->Err_0 is NntpError,
        data is Some <==> payload->Err_0 is YencDecode,
        data is None ==> payload->Err_0@ == StreamErrorView::NntpError(
            "empty response for article "@ + id@,
        ),
        data matches Some(raw) ==> payload->Err_0@ == StreamErrorView::YencDecode(
            provider::yenc_decoded(raw@)->Err_0,
        ),
{
}

/// An article exists where the answer has the code for that, and no other. A request that is
/// asked how it ended says the same as the one that ended.
pub proof fn law_existence_is_told_by_the_code(
    code: u16,
    found: bool,
    request: Failover,
    ended: Result<bool, StreamError>,
    asked: Result<bool, StreamError>,
)
    requires
        call_ensures(provider::article_exists, (code,), found),
        call_ensures(Failover::stat_exhausted, (request,), ended),
        call_ensures(UsenetArticleProvider::stat, (request, None), asked),
    ensures
        found <==> code == 223,
        ended is Ok <==> asked is Ok,
        ended is Ok ==> ended->Ok_0 == asked->Ok_0 && !ended->Ok_0,
        ended is Err ==> ended->Err_0@ == asked->Err_0@,
{
}

/// A stream is opened without a search at its first byte, and not at all at or behind its
/// end; anywhere else the segment is searched for, over all of them.
pub proof fn law_positions_inside_are_searched_for(
    s: &mut SeekableSegmentStream,
    r: Option<SegmentSearch>,
)
    requires
        old(s).segment_ids@.len() > 0,
        call_ensures(SeekableSegmentStream::start_resolve, (s,), r),
    ensures
        final(s).position == old(s).position,
        final(s).segment_ids == old(s).segment_ids,
        final(s).file_size == old(s).file_size,
        old(s).position == 0 ==> r is None && final(s).inner == Some(0usize)
            && final(s).discard_bytes == 0 && !final(s).needs_resolve,
        old(s).position > 0 && old(s).position >= old(s).file_size ==> r is None
            && final(s).inner is None && !final(s).needs_resolve,
        0 < old(s).position < old(s).file_size ==> {
            &&& *final(s) == *old(s)
            &&& r matches Some(search)
            &&& search.target == old(s).position
            &&& search.lo_idx == 0 && search.lo_byte == 0
            &&& search.hi_idx == old(s).segment_ids@.len()
            &&& search.hi_byte == old(s).file_size
            &&& search.segments == old(s).segment_ids@.len()
            &&& search.file_size == old(s).file_size
        },
{
    assert(old(s).segment_ids.len() == old(s).segment_ids@.len());
}

/// A header decides how a search goes on: a segment that holds the target ends it, one that
/// ends before the target is left behind with all before it, and one that begins after it
/// with all behind it. The search goes on as long as segments are left and the target lies
/// between their bounds.
pub proof fn law_headers_narrow_the_search(
    s: SegmentSearch,
    index: usize,
    headers: YencHeaders,
    r: SearchStep,
)
    requires
        s.lo_idx <= index < s.hi_idx <= s.segments,
        s.lo_byte <= s.target < s.hi_byte,
        call_ensures(SegmentSearch::observe, (s, index, &headers), r),
    ensures
        headers.part_begin <= s.target < headers.part_end ==> r == SearchStep::Found(
            FoundSegment { index, start_byte: headers.part_begin },
        ),
        headers.part_end <= s.target && index + 1 < s.hi_idx ==> r == SearchStep::Probe(
            SegmentSearch { lo_idx: (index + 1) as usize, lo_byte: headers.part_end, ..s },
        ),
        headers.part_end > s.target && headers.part_begin > s.target && s.lo_idx < index ==> r
            == SearchStep::Probe(
            SegmentSearch { hi_idx: index, hi_byte: headers.part_begin, ..s },
        ),
        r matches SearchStep::Probe(t) ==> t.lo_idx < t.hi_idx && t.lo_byte <= t.target < t.hi_byte,
        !(r is NoSegments),
{
}

/// A search that is left without segments, though no header held the target, settles for the
/// same estimate as one whose header cannot be fetched; but a target behind the last segment
/// is looked for there.
pub proof fn law_lost_searches_settle_for_the_estimate(
    s: SegmentSearch,
    index: usize,
    headers: YencHeaders,
    r: SearchStep,
    estimate: FoundSegment,
)
    requires
        s.lo_idx <= index < s.hi_idx <= s.segments,
        s.lo_byte <= s.target < s.hi_byte,
        call_ensures(SegmentSearch::observe, (s, index, &headers), r),
        call_ensures(SegmentSearch::probe_failed, (&s,), estimate),
    ensures
        headers.part_end <= s.target && index + 1 == s.hi_idx && s.hi_idx < s.segments ==> r
            == SearchStep::Found(estimate),
        headers.part_end <= s.target && index + 1 == s.segments ==> r == SearchStep::Found(
            FoundSegment { index: s.segments, start_byte: headers.part_end },
        ),
        headers.part_end > s.target && headers.part_begin > s.target && s.lo_idx == index
            && s.lo_idx < s.segments ==> r == SearchStep::Found(estimate),
{
}

/// A search for what lies at or behind the end asks no article.
pub proof fn law_targets_behind_the_end_are_not_probed(
    segments: usize,
    file_size: u64,
    target: u64,
    r: SearchStep,
)
    requires
        segments > 0,
        target > 0,
        target >= file_size,
        call_ensures(seekable_segment_stream::find_segment, (segments, file_size, target), r),
    ensures
        r matches SearchStep::Found(f) && f.index < segments && f.start_byte <= target,
{
    seekable_segment_stream::lemma_estimate(segments as int, file_size, target);
}

} // verus!
