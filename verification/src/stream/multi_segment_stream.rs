//! A stream over articles that are fetched in order: what a reader gets of each
//! article, and what is kept for the next read.

use vstd::prelude::*;

use crate::stream::provider::StreamError;

verus! {

/// `bytes::BytesMut`, the buffer that holds the unread rest of an article.
#[verifier::external_type_specification]
#[verifier::external_body]
pub struct ExBytesMut(bytes::BytesMut);

/// The bytes that a `bytes::BytesMut` holds.
pub uninterp spec fn buffered(buffer: bytes::BytesMut) -> Seq<u8>;

/// `BytesMut::new`: a buffer that holds nothing.
#[verifier::external_body]
fn empty_buffer() -> (r: bytes::BytesMut)
    ensures
        buffered(r) == Seq::<u8>::empty(),
{
    bytes::BytesMut::new()
}

/// `BytesMut::len`: how many bytes the buffer holds.
#[verifier::external_body]
fn buffer_len(buffer: &bytes::BytesMut) -> (r: usize)
    ensures
        r == buffered(*buffer).len(),
{
    buffer.len()
}

/// `BytesMut` as a slice, cut after `n` bytes and copied. The slice panics where fewer
/// bytes are held.
#[verifier::external_body]
fn buffer_front(buffer: &bytes::BytesMut, n: usize) -> (r: Vec<u8>)
    requires
        n <= buffered(*buffer).len(),
    ensures
        r@ == buffered(*buffer).subrange(0, n as int),
{
    buffer[..n].to_vec()
}

/// `Buf::advance` of `BytesMut`: drops the first `n` bytes. It panics where fewer are held.
#[verifier::external_body]
fn buffer_advance(buffer: &mut bytes::BytesMut, n: usize)
    requires
        n <= buffered(*old(buffer)).len(),
    ensures
        buffered(*final(buffer)) == buffered(*old(buffer)).subrange(
            n as int,
            buffered(*old(buffer)).len() as int,
        ),
{
    bytes::Buf::advance(buffer, n)
}

/// `BytesMut::extend_from_slice`: appends the bytes. It panics where the buffer would
/// outgrow the address space.
#[verifier::external_body]
fn buffer_extend(buffer: &mut bytes::BytesMut, data: &[u8])
    requires
        buffered(*old(buffer)).len() + data@.len() <= isize::MAX,
    ensures
        buffered(*final(buffer)) == buffered(*old(buffer)) + data@,
{
    buffer.extend_from_slice(data)
}

/// The smaller of two numbers.
pub open spec fn least(a: int, b: int) -> int {
    if a < b {
        a
    } else {
        b
    }
}

/// What a read with `room` bytes of room takes of `data`.
pub open spec fn taken(data: Seq<u8>, room: int) -> Seq<u8> {
    data.subrange(0, least(data.len() as int, room))
}

/// What a read with `room` bytes of room leaves of `data`.
pub open spec fn left_over(data: Seq<u8>, room: int) -> Seq<u8> {
    data.subrange(least(data.len() as int, room), data.len() as int)
}

/// How a read goes.
pub enum SegmentRead {
    /// The reader gets these bytes.
    Bytes(Vec<u8>),
    /// The stream is at its end.
    Eof,
    /// Nothing is kept: the next article is needed.
    Receive,
}

/// The bytes that the reader gets.
pub open spec fn bytes_got(r: SegmentRead) -> Seq<u8> {
    match r {
        SegmentRead::Bytes(v) => v@,
        _ => Seq::empty(),
    }
}

/// The bytes that the reader gets, none where there is an error.
pub open spec fn bytes_if_any(r: Result<Vec<u8>, StreamError>) -> Seq<u8> {
    match r {
        Ok(v) => v@,
        Err(_) => Seq::empty(),
    }
}

/// Whether what comes next is the first of these articles, or their end.
pub open spec fn arrives(
    next: Option<Result<Vec<u8>, StreamError>>,
    incoming: Seq<Option<Seq<u8>>>,
) -> bool {
    match next {
        None => incoming.len() == 0,
        Some(Ok(data)) => incoming.len() > 0 && incoming[0] == Some(data@),
        Some(Err(_)) => incoming.len() > 0 && incoming[0] is None,
    }
}

/// The articles behind the first one, where there is one.
pub open spec fn behind_first(incoming: Seq<Option<Seq<u8>>>) -> Seq<Option<Seq<u8>>> {
    if incoming.len() == 0 {
        incoming
    } else {
        incoming.drop_first()
    }
}

/// The reader's side of a stream that fetches and decodes articles in order.
pub struct MultiSegmentStream {
    buffer: bytes::BytesMut,
    bytes_read: u64,
    done: bool,
}

impl MultiSegmentStream {
    /// The bytes that were received and not yet read.
    pub closed spec fn pending(self) -> Seq<u8> {
        buffered(self.buffer)
    }

    /// How many bytes were read, modulo 2^64.
    pub closed spec fn count(self) -> u64 {
        self.bytes_read
    }

    /// Whether no more articles are expected.
    pub closed spec fn is_done(self) -> bool {
        self.done
    }

    /// The stream, once this has been read of it, when it is still to receive these articles.
    pub open spec fn progress(self, read: Seq<u8>, incoming: Seq<Option<Seq<u8>>>) -> Progress {
        Progress { read, pending: self.pending(), incoming, done: self.is_done() }
    }

    /// A stream that has received nothing.
    pub fn new() -> (r: Self)
        ensures
            r.pending() == Seq::<u8>::empty(),
            r.count() == 0,
            !r.is_done(),
    {
        MultiSegmentStream { buffer: empty_buffer(), bytes_read: 0, done: false }
    }

    /// Total bytes that have been read out of this stream so far.
    pub fn bytes_read(&self) -> (r: u64)
        ensures
            r == self.count(),
    {
        self.bytes_read
    }

    /// Reads from what is kept; says that the stream is at its end, or that the next
    /// article is needed, where nothing is.
    pub fn poll_read(&mut self, room: usize) -> (r: SegmentRead)
        ensures
            final(self).is_done() == old(self).is_done(),
            old(self).pending().len() > 0 ==> {
                &&& r matches SegmentRead::Bytes(v)
                &&& v@ == taken(old(self).pending(), room as int)
                &&& final(self).pending() == left_over(old(self).pending(), room as int)
                &&& final(self).count() == old(self).count().wrapping_add(v@.len() as u64)
            },
            old(self).pending().len() == 0 ==> {
                &&& *final(self) == *old(self)
                &&& r is Eof <==> old(self).is_done()
                &&& r is Receive <==> !old(self).is_done()
            },
            forall|read: Seq<u8>, incoming: Seq<Option<Seq<u8>>>|
                !(r is Receive) ==> after_read(
                    #[trigger] old(self).progress(read, incoming),
                    room as int,
                ) == final(self).progress(read + bytes_got(r), incoming),
    {
        let held: usize = buffer_len(&self.buffer);
        if held > 0 {
            let n: usize = if held < room {
                held
            } else {
                room
            };
            let out = buffer_front(&self.buffer, n);
            buffer_advance(&mut self.buffer, n);
            self.bytes_read = self.bytes_read.wrapping_add(n as u64);
            return SegmentRead::Bytes(out);
        }
        assert(forall|read: Seq<u8>| #[trigger] (read + Seq::<u8>::empty()) =~= read);
        if self.done {
            SegmentRead::Eof
        } else {
            SegmentRead::Receive
        }
    }

    /// Takes in what comes next. Of an article the reader gets as much as there is room
    /// for, and the rest is kept. An article that could not be had ends the stream, with
    /// its error, and so does the end of the articles.
    pub fn received(&mut self, next: Option<Result<Vec<u8>, StreamError>>, room: usize) -> (r:
        Result<Vec<u8>, StreamError>)
        requires
            old(self).pending().len() == 0,
            next matches Some(Ok(data)) ==> data@.len() <= isize::MAX,
        ensures
            match next {
                Some(Ok(data)) => {
                    &&& r matches Ok(v)
                    &&& v@ == taken(data@, room as int)
                    &&& final(self).pending() == left_over(data@, room as int)
                    &&& final(self).count() == old(self).count().wrapping_add(v@.len() as u64)
                    &&& final(self).is_done() == old(self).is_done()
                },
                Some(Err(e)) => {
                    &&& r == Err::<Vec<u8>, StreamError>(e)
                    &&& final(self).is_done()
                    &&& final(self).pending() == old(self).pending()
                    &&& final(self).count() == old(self).count()
                },
                None => {
                    &&& r matches Ok(v)
                    &&& v@.len() == 0
                    &&& final(self).is_done()
                    &&& final(self).pending() == old(self).pending()
                    &&& final(self).count() == old(self).count()
                },
            },
            forall|read: Seq<u8>, incoming: Seq<Option<Seq<u8>>>|
                !old(self).is_done() && arrives(next, incoming) ==> after_read(
                    #[trigger] old(self).progress(read, incoming),
                    room as int,
                ) == final(self).progress(read + bytes_if_any(r), behind_first(incoming)),
    {
        assert(forall|read: Seq<u8>| #[trigger] (read + Seq::<u8>::empty()) =~= read);
        match next {
            Some(Ok(data)) => {
                let n: usize = if data.len() < room {
                    data.len()
                } else {
                    room
                };
                let (front, rest) = data.as_slice().split_at(n);
                let mut out: Vec<u8> = Vec::new();
                out.extend_from_slice(front);
                assert(out@ =~= taken(data@, room as int));
                self.bytes_read = self.bytes_read.wrapping_add(n as u64);
                if n < data.len() {
                    buffer_extend(&mut self.buffer, rest);
                }
                assert(buffered(self.buffer) =~= left_over(data@, room as int));
                Ok(out)
            },
            Some(Err(e)) => {
                self.done = true;
                Err(e)
            },
            None => {
                self.done = true;
                Ok(Vec::new())
            },
        }
    }
}

/// The articles one after the other.
pub open spec fn joined(segments: Seq<Seq<u8>>) -> Seq<u8>
    decreases segments.len(),
{
    if segments.len() == 0 {
        Seq::empty()
    } else {
        segments[0] + joined(segments.drop_first())
    }
}

/// What comes of articles, of which some could not be had: all that is before the first
/// of those, one after the other.
pub open spec fn intact(incoming: Seq<Option<Seq<u8>>>) -> Seq<u8>
    decreases incoming.len(),
{
    if incoming.len() == 0 {
        Seq::empty()
    } else {
        match incoming[0] {
            None => Seq::empty(),
            Some(data) => data + intact(incoming.drop_first()),
        }
    }
}

/// Articles that can all be had.
pub open spec fn all_had(segments: Seq<Seq<u8>>) -> Seq<Option<Seq<u8>>> {
    segments.map_values(|s: Seq<u8>| Some(s))
}

/// Where all articles can be had, all of them come.
pub proof fn lemma_intact(segments: Seq<Seq<u8>>)
    ensures
        intact(all_had(segments)) == joined(segments),
    decreases segments.len(),
{
    if segments.len() > 0 {
        lemma_intact(segments.drop_first());
        assert(all_had(segments).drop_first() =~= all_had(segments.drop_first()));
    }
}

/// What has been read, what is kept, what is still to be received, and whether no more is
/// expected.
pub struct Progress {
    pub read: Seq<u8>,
    pub pending: Seq<u8>,
    pub incoming: Seq<Option<Seq<u8>>>,
    pub done: bool,
}

impl Progress {
    /// A stream that is to receive these articles.
    pub open spec fn initial(incoming: Seq<Option<Seq<u8>>>) -> Progress {
        Progress { read: Seq::empty(), pending: Seq::empty(), incoming, done: false }
    }

    /// What is still to be read.
    pub open spec fn rest(self) -> Seq<u8> {
        if self.done {
            self.pending
        } else {
            self.pending + intact(self.incoming)
        }
    }
}

/// A read with `room` bytes of room, as `poll_read` does it and, where that asks for what
/// comes next, `received`: each of them ends in the progress that this says.
pub open spec fn after_read(p: Progress, room: int) -> Progress {
    if p.pending.len() > 0 {
        Progress {
            read: p.read + taken(p.pending, room),
            pending: left_over(p.pending, room),
            ..p
        }
    } else if p.done {
        p
    } else if p.incoming.len() == 0 {
        Progress { done: true, ..p }
    } else {
        match p.incoming[0] {
            None => Progress { incoming: p.incoming.drop_first(), done: true, ..p },
            Some(data) => Progress {
                read: p.read + taken(data, room),
                pending: left_over(data, room),
                incoming: p.incoming.drop_first(),
                ..p
            },
        }
    }
}

/// Reads with these amounts of room, one after the other.
pub open spec fn after_reads(p: Progress, rooms: Seq<nat>) -> Progress
    decreases rooms.len(),
{
    if rooms.len() == 0 {
        p
    } else {
        after_reads(after_read(p, rooms[0] as int), rooms.drop_first())
    }
}

/// One read takes from the front of what is still to be read, and adds it to what was read.
pub proof fn law_read_takes_the_front(p: Progress, room: int)
    requires
        0 <= room,
    ensures
        after_read(p, room).read + after_read(p, room).rest() == p.read + p.rest(),
        p.read.len() <= after_read(p, room).read.len() <= p.read.len() + room,
        after_read(p, room).read.take(p.read.len() as int) == p.read,
{
    let q = after_read(p, room);
    assert(q.read.take(p.read.len() as int) =~= p.read);
    if p.pending.len() > 0 {
        assert(taken(p.pending, room) + left_over(p.pending, room) =~= p.pending);
        assert(q.read + q.rest() =~= p.read + p.rest());
    } else if !p.done && p.incoming.len() > 0 && p.incoming[0] is Some {
        let first = p.incoming[0]->0;
        assert(taken(first, room) + left_over(first, room) =~= first);
        assert(q.read + q.rest() =~= p.read + p.rest());
    } else {
        assert(q.read + q.rest() =~= p.read + p.rest());
    }
}

/// No byte is lost, repeated or moved: what has been read and what is still to be read are
/// always the articles in order, up to the first one that cannot be had, whatever room each
/// read has.
pub proof fn law_reads_keep_order(p: Progress, rooms: Seq<nat>)
    ensures
        after_reads(p, rooms).read + after_reads(p, rooms).rest() == p.read + p.rest(),
    decreases rooms.len(),
{
    if rooms.len() > 0 {
        law_read_takes_the_front(p, rooms[0] as int);
        law_reads_keep_order(after_read(p, rooms[0] as int), rooms.drop_first());
    }
}

/// A stream whose reader finds it at its end has delivered every article before the first
/// one that could not be had, whole and in order, and nothing else.
pub proof fn law_end_means_everything_read(incoming: Seq<Option<Seq<u8>>>, rooms: Seq<nat>)
    requires
        after_reads(Progress::initial(incoming), rooms).pending.len() == 0,
        after_reads(Progress::initial(incoming), rooms).done,
    ensures
        after_reads(Progress::initial(incoming), rooms).read == intact(incoming),
{
    let p = Progress::initial(incoming);
    law_reads_keep_order(p, rooms);
    let q = after_reads(p, rooms);
    assert(q.read + q.rest() =~= q.read);
    assert(p.read + p.rest() =~= intact(incoming));
}

} // verus!
