//! Articles: asked of one server after the other, and decoded.

use vstd::prelude::*;

use crate::text;

verus! {

/// Decoded yEnc part header information, used for seek interpolation.
#[derive(Clone, Copy, Debug, PartialEq, Eq, Structural)]
pub struct YencHeaders {
    /// Byte offset where this part begins in the reassembled file.
    pub part_begin: u64,
    /// Byte offset where this part ends in the reassembled file.
    pub part_end: u64,
    /// Total size of the reassembled file.
    pub total_size: u64,
}

/// Why an article could not be had.
#[derive(Clone, Debug, PartialEq, Eq)]
pub enum StreamError {
    NntpError(String),
    YencDecode(String),
    ArticleNotFound(String),
    AllServersExhausted(String),
}

/// A `StreamError` with its text as a sequence of characters.
pub enum StreamErrorView {
    NntpError(Seq<char>),
    YencDecode(Seq<char>),
    ArticleNotFound(Seq<char>),
    AllServersExhausted(Seq<char>),
}

impl View for StreamError {
    type V = StreamErrorView;

    open spec fn view(&self) -> StreamErrorView {
        match self {
            StreamError::NntpError(m) => StreamErrorView::NntpError(m@),
            StreamError::YencDecode(m) => StreamErrorView::YencDecode(m@),
            StreamError::ArticleNotFound(m) => StreamErrorView::ArticleNotFound(m@),
            StreamError::AllServersExhausted(m) => StreamErrorView::AllServersExhausted(m@),
        }
    }
}

/// What the yEnc decoder makes of an article.
#[derive(Clone, Debug, PartialEq, Eq)]
pub struct YencDecoded {
    pub data: Vec<u8>,
    /// The name of the file that the article is a part of.
    pub filename: Option<String>,
    pub part_begin: Option<u64>,
    pub part_end: Option<u64>,
    pub file_size: Option<u64>,
}

/// What the yEnc decoder makes of an article, with its data as a sequence.
pub struct YencPart {
    pub data: Seq<u8>,
    pub filename: Option<Seq<char>>,
    pub part_begin: Option<u64>,
    pub part_end: Option<u64>,
    pub file_size: Option<u64>,
}

impl View for YencDecoded {
    type V = YencPart;

    open spec fn view(&self) -> YencPart {
        YencPart {
            data: self.data@,
            filename: text::chars_of(self.filename),
            part_begin: self.part_begin,
            part_end: self.part_end,
            file_size: self.file_size,
        }
    }
}

/// What `nzb_decode::decode_yenc` returns for an article: the part, or the text of the error.
pub uninterp spec fn yenc_decoded(raw: Seq<u8>) -> Result<YencPart, Seq<char>>;

/// `nzb_decode::decode_yenc`, with its error as text. The decoder looks at nothing but the
/// article, and refuses an article it cannot read instead of panicking.
#[verifier::external_body]
fn decode_yenc(raw: &Vec<u8>) -> (r: Result<YencDecoded, String>)
    ensures
        decoded_view(r) == yenc_decoded(raw@),
{
    match nzb_decode::decode_yenc(raw) {
        Ok(d) => Ok(YencDecoded {
            data: d.data,
            filename: d.filename,
            part_begin: d.part_begin,
            part_end: d.part_end,
            file_size: d.file_size,
        }),
        Err(e) => Err(e.to_string()),
    }
}

/// The payload that a decoded article carries.
pub open spec fn payload_of(decoded: Result<YencPart, Seq<char>>) -> Result<
    Seq<u8>,
    StreamErrorView,
> {
    match decoded {
        Ok(d) => Ok(d.data),
        Err(e) => Err(StreamErrorView::YencDecode(e)),
    }
}

/// The byte range that a decoded article declares; what it does not declare is 0.
pub open spec fn headers_of(decoded: Result<YencPart, Seq<char>>) -> Result<
    YencHeaders,
    StreamErrorView,
> {
    match decoded {
        Ok(d) => Ok(
            YencHeaders {
                part_begin: d.part_begin.unwrap_or(0),
                part_end: d.part_end.unwrap_or(0),
                total_size: d.file_size.unwrap_or(0),
            },
        ),
        Err(e) => Err(StreamErrorView::YencDecode(e)),
    }
}

/// The error for an answer without a body.
pub open spec fn empty_response(message_id: Seq<char>) -> StreamErrorView {
    StreamErrorView::NntpError("empty response for article "@ + message_id)
}

/// A result of the decoder, with its parts taken by their views.
pub open spec fn decoded_view(decoded: Result<YencDecoded, String>) -> Result<YencPart, Seq<char>> {
    match decoded {
        Ok(d) => Ok(d@),
        Err(e) => Err(e@),
    }
}

/// A payload or an error, taken by its view.
pub open spec fn payload_view(r: Result<Vec<u8>, StreamError>) -> Result<Seq<u8>, StreamErrorView> {
    match r {
        Ok(v) => Ok(v@),
        Err(e) => Err(e@),
    }
}

/// A byte range or an error, taken by its view.
pub open spec fn headers_view(r: Result<YencHeaders, StreamError>) -> Result<
    YencHeaders,
    StreamErrorView,
> {
    match r {
        Ok(h) => Ok(h),
        Err(e) => Err(e@),
    }
}

/// The part that a decoded article is.
pub open spec fn part_of(decoded: Result<YencPart, Seq<char>>) -> Result<YencPart, StreamErrorView> {
    match decoded {
        Ok(d) => Ok(d),
        Err(e) => Err(StreamErrorView::YencDecode(e)),
    }
}

/// A part or an error, taken by its view.
pub open spec fn part_view(r: Result<YencDecoded, StreamError>) -> Result<
    YencPart,
    StreamErrorView,
> {
    match r {
        Ok(d) => Ok(d@),
        Err(e) => Err(e@),
    }
}

/// The payload of a decoded article.
pub fn decoded_payload(decoded: Result<YencDecoded, String>) -> (r: Result<Vec<u8>, StreamError>)
    ensures
        payload_view(r) == payload_of(decoded_view(decoded)),
{
    match decoded {
        Ok(d) => Ok(d.data),
        Err(e) => Err(StreamError::YencDecode(e)),
    }
}

/// The byte range of a decoded article.
pub fn decoded_headers(decoded: Result<YencDecoded, String>) -> (r: Result<
    YencHeaders,
    StreamError,
>)
    ensures
        headers_view(r) == headers_of(decoded_view(decoded)),
{
    match decoded {
        Ok(d) => Ok(
            YencHeaders {
                part_begin: d.part_begin.unwrap_or(0),
                part_end: d.part_end.unwrap_or(0),
                total_size: d.file_size.unwrap_or(0),
            },
        ),
        Err(e) => Err(StreamError::YencDecode(e)),
    }
}

/// Decodes the article that a server answered with: its payload.
pub fn article_payload(data: Option<Vec<u8>>, message_id: &str) -> (r: Result<
    Vec<u8>,
    StreamError,
>)
    ensures
        payload_view(r) == (match data {
            None => Err(empty_response(message_id@)),
            Some(raw) => payload_of(yenc_decoded(raw@)),
        }),
{
    match data {
        None => Err(StreamError::NntpError(text::join("empty response for article ", message_id))),
        Some(raw) => decoded_payload(decode_yenc(&raw)),
    }
}

/// Decodes the article that a server answered with: all that the decoder makes of it.
pub fn article_part(data: Option<Vec<u8>>, message_id: &str) -> (r: Result<
    YencDecoded,
    StreamError,
>)
    ensures
        part_view(r) == (match data {
            None => Err(empty_response(message_id@)),
            Some(raw) => part_of(yenc_decoded(raw@)),
        }),
{
    match data {
        None => Err(StreamError::NntpError(text::join("empty response for article ", message_id))),
        Some(raw) => match decode_yenc(&raw) {
            Ok(d) => Ok(d),
            Err(e) => Err(StreamError::YencDecode(e)),
        },
    }
}

/// Decodes the article that a server answered with: its byte range.
pub fn article_headers(data: Option<Vec<u8>>, message_id: &str) -> (r: Result<
    YencHeaders,
    StreamError,
>)
    ensures
        headers_view(r) == (match data {
            None => Err(empty_response(message_id@)),
            Some(raw) => headers_of(yenc_decoded(raw@)),
        }),
{
    match data {
        None => Err(StreamError::NntpError(text::join("empty response for article ", message_id))),
        Some(raw) => decoded_headers(decode_yenc(&raw)),
    }
}

/// Whether the answer to a STAT command says that the article exists.
pub fn article_exists(code: u16) -> (r: bool)
    ensures
        r == (code == 223),
{
    code == 223
}

/// Why a server did not deliver.
#[derive(Clone, Debug, PartialEq, Eq)]
pub enum ServerFailure {
    /// No connection to the server could be had.
    Acquire(String),
    /// The server does not have the article.
    NotFound,
    /// The server failed in another way.
    Nntp(String),
}

/// What becomes of a connection that was used.
#[derive(Clone, Copy, Debug, PartialEq, Eq, Structural)]
pub enum Disposition {
    /// There was no connection.
    NotHeld,
    /// It goes back to its pool.
    Release,
    /// It may be in a bad state, and is closed.
    Discard,
}

/// The error that a failure of one server leaves.
pub open spec fn error_of(failure: ServerFailure, message_id: Seq<char>) -> StreamErrorView {
    match failure {
        ServerFailure::Acquire(e) => StreamErrorView::NntpError(e@),
        ServerFailure::NotFound => StreamErrorView::ArticleNotFound(message_id),
        ServerFailure::Nntp(e) => StreamErrorView::NntpError(e@),
    }
}

/// Whether an article exists, with the error's text as a sequence of characters.
pub open spec fn exists_view(r: Result<bool, StreamError>) -> Result<bool, StreamErrorView> {
    match r {
        Ok(b) => Ok(b),
        Err(e) => Err(e@),
    }
}

/// A request that goes from server to server until one delivers.
pub struct Failover {
    servers: usize,
    next: usize,
    message_id: String,
    last_error: Option<StreamError>,
    /// The last error that does not say that a server lacks the article.
    last_fault: Option<StreamError>,
}

impl Failover {
    /// How many servers there are.
    pub closed spec fn servers(self) -> int {
        self.servers as int
    }

    /// How many servers have failed.
    pub closed spec fn tried(self) -> int {
        self.next as int
    }

    /// The article that is asked for.
    pub closed spec fn article(self) -> Seq<char> {
        self.message_id@
    }

    /// The error of the server that failed last.
    pub closed spec fn error(self) -> Option<StreamErrorView> {
        match self.last_error {
            None => None,
            Some(e) => Some(e@),
        }
    }

    /// The last error that does not say that a server lacks the article.
    pub closed spec fn fault(self) -> Option<StreamErrorView> {
        match self.last_fault {
            None => None,
            Some(e) => Some(e@),
        }
    }

    /// The error that the request ends with when no server delivers.
    pub open spec fn final_error(self) -> StreamErrorView {
        match self.error() {
            None => StreamErrorView::AllServersExhausted(self.article()),
            Some(e) => e,
        }
    }

    /// The answer of `stat` when no server has delivered: the article does not exist where
    /// every server asked lacks it. A server that failed may have it.
    pub open spec fn final_answer(self) -> Result<bool, StreamErrorView> {
        match (self.error(), self.fault()) {
            (None, _) => Err(StreamErrorView::AllServersExhausted(self.article())),
            (Some(_), Some(e)) => Err(e),
            (Some(_), None) => Ok(false),
        }
    }

    /// The server to ask next: they are asked in order of priority, each of them once.
    pub fn next_server(&self) -> (r: Option<usize>)
        ensures
            r == (if self.tried() < self.servers() {
                Some(self.tried() as usize)
            } else {
                None::<usize>
            }),
            r matches Some(at) ==> at == self.tried(),
    {
        if self.next < self.servers {
            Some(self.next)
        } else {
            None
        }
    }

    /// Takes in that the server asked did not deliver, and says what becomes of its
    /// connection.
    pub fn failed(&mut self, failure: ServerFailure) -> (r: Disposition)
        requires
            old(self).tried() < old(self).servers(),
        ensures
            r == (match failure {
                ServerFailure::Acquire(_) => Disposition::NotHeld,
                ServerFailure::NotFound => Disposition::Release,
                ServerFailure::Nntp(_) => Disposition::Discard,
            }),
            final(self).servers() == old(self).servers(),
            final(self).tried() == old(self).tried() + 1,
            final(self).article() == old(self).article(),
            final(self).error() == Some(error_of(failure, old(self).article())),
            final(self).fault() == (if failure is NotFound {
                old(self).fault()
            } else {
                final(self).error()
            }),
    {
        self.next = self.next + 1;
        match failure {
            ServerFailure::Acquire(e) => {
                self.last_fault = Some(StreamError::NntpError(e.clone()));
                self.last_error = Some(StreamError::NntpError(e));
                Disposition::NotHeld
            },
            ServerFailure::NotFound => {
                self.last_error = Some(StreamError::ArticleNotFound(self.message_id.clone()));
                Disposition::Release
            },
            ServerFailure::Nntp(e) => {
                self.last_fault = Some(StreamError::NntpError(e.clone()));
                self.last_error = Some(StreamError::NntpError(e));
                Disposition::Discard
            },
        }
    }

    /// The error when no server has delivered: that of the server asked last, or that there
    /// are no servers.
    pub fn exhausted(self) -> (r: StreamError)
        ensures
            r@ == self.final_error(),
    {
        match self.last_error {
            Some(e) => e,
            None => StreamError::AllServersExhausted(self.message_id),
        }
    }

    /// The answer of `stat` when no server has delivered.
    pub fn stat_exhausted(self) -> (r: Result<bool, StreamError>)
        ensures
            exists_view(r) == self.final_answer(),
    {
        match self.last_error {
            None => Err(StreamError::AllServersExhausted(self.message_id)),
            Some(_) => match self.last_fault {
                Some(e) => Err(e),
                None => Ok(false),
            },
        }
    }
}

/// The number of connections of all servers.
pub open spec fn connection_sum(connections: Seq<u16>) -> nat
    decreases connections.len(),
{
    if connections.len() == 0 {
        0
    } else {
        connection_sum(connections.drop_last()) + connections.last() as nat
    }
}

proof fn lemma_connection_sum_prefix(connections: Seq<u16>, n: int)
    requires
        0 <= n <= connections.len(),
    ensures
        connection_sum(connections.subrange(0, n)) <= connection_sum(connections),
    decreases connections.len() - n,
{
    if n == connections.len() {
        assert(connections.subrange(0, n) =~= connections);
    } else {
        lemma_connection_sum_prefix(connections, n + 1);
        assert(connections.subrange(0, n + 1).drop_last() =~= connections.subrange(0, n));
    }
}

/// The servers that articles are fetched from, in order of priority: how many connections
/// each of them allows.
pub struct UsenetArticleProvider {
    pub connections: Vec<u16>,
}

impl UsenetArticleProvider {
    /// A provider over servers listed in priority order.
    pub fn new(connections: Vec<u16>) -> (r: Self)
        ensures
            r.connections == connections,
    {
        UsenetArticleProvider { connections }
    }

    /// Replaces the servers, after a change of configuration.
    pub fn replace_pools(&mut self, connections: Vec<u16>)
        ensures
            final(self).connections == connections,
    {
        self.connections = connections;
    }

    /// Total number of connections across all servers.
    pub fn total_connections(&self) -> (r: usize)
        requires
            connection_sum(self.connections@) <= usize::MAX,
        ensures
            r == connection_sum(self.connections@),
    {
        let mut sum: usize = 0;
        let mut i: usize = 0;
        assert(self.connections@.subrange(0, 0) =~= Seq::<u16>::empty());
        while i < self.connections.len()
            invariant
                i <= self.connections@.len(),
                sum == connection_sum(self.connections@.subrange(0, i as int)),
                connection_sum(self.connections@) <= usize::MAX,
            decreases self.connections@.len() - i,
        {
            proof {
                lemma_connection_sum_prefix(self.connections@, i + 1);
                assert(self.connections@.subrange(0, i + 1).drop_last()
                    =~= self.connections@.subrange(0, i as int));
            }
            sum = sum + self.connections[i] as usize;
            i += 1;
        }
        assert(self.connections@.subrange(0, i as int) =~= self.connections@);
        sum
    }

    /// The payload of an article: that of the answer, where a server gave one, else the
    /// error that the request ended with.
    pub fn fetch_decoded(request: Failover, answer: Option<Option<Vec<u8>>>) -> (r: Result<
        Vec<u8>,
        StreamError,
    >)
        ensures
            payload_view(r) == (match answer {
                None => Err(request.final_error()),
                Some(None) => Err(empty_response(request.article())),
                Some(Some(raw)) => payload_of(yenc_decoded(raw@)),
            }),
    {
        match answer {
            None => Err(request.exhausted()),
            Some(data) => article_payload(data, request.message_id.as_str()),
        }
    }

    /// An article with the name of the file that it is a part of, as `fetch_decoded` has its
    /// payload.
    pub fn fetch_part(request: Failover, answer: Option<Option<Vec<u8>>>) -> (r: Result<
        YencDecoded,
        StreamError,
    >)
        ensures
            part_view(r) == (match answer {
                None => Err(request.final_error()),
                Some(None) => Err(empty_response(request.article())),
                Some(Some(raw)) => part_of(yenc_decoded(raw@)),
            }),
    {
        match answer {
            None => Err(request.exhausted()),
            Some(data) => article_part(data, request.message_id.as_str()),
        }
    }

    /// Whether an article exists: what the status code of the answer says, where a server
    /// gave one. Else it does not where every server asked lacks it.
    pub fn stat(request: Failover, code: Option<u16>) -> (r: Result<bool, StreamError>)
        ensures
            exists_view(r) == (match code {
                Some(c) => Ok(c == 223),
                None => request.final_answer(),
            }),
    {
        match code {
            Some(c) => Ok(article_exists(c)),
            None => request.stat_exhausted(),
        }
    }

    /// The byte range in the yEnc header of an article, as `fetch_decoded` has its payload.
    pub fn yenc_headers(request: Failover, answer: Option<Option<Vec<u8>>>) -> (r: Result<
        YencHeaders,
        StreamError,
    >)
        ensures
            headers_view(r) == (match answer {
                None => Err(request.final_error()),
                Some(None) => Err(empty_response(request.article())),
                Some(Some(raw)) => headers_of(yenc_decoded(raw@)),
            }),
    {
        match answer {
            None => Err(request.exhausted()),
            Some(data) => article_headers(data, request.message_id.as_str()),
        }
    }

    /// Starts to ask the servers for an article.
    pub fn request(&self, message_id: &str) -> (r: Failover)
        ensures
            r.servers() == self.connections@.len(),
            r.tried() == 0,
            r.article() == message_id@,
            r.error() is None,
            r.fault() is None,
    {
        Failover {
            servers: self.connections.len(),
            next: 0,
            message_id: message_id.to_string(),
            last_error: None,
            last_fault: None,
        }
    }
}

/// An article that no server delivers ends in the error of the server asked last; only
/// without servers it ends in `AllServersExhausted`.
pub proof fn law_last_server_decides_error(
    failures: Seq<ServerFailure>,
    steps: Seq<Failover>,
    message_id: Seq<char>,
)
    requires
        steps.len() == failures.len() + 1,
        steps[0].article() == message_id,
        steps[0].error() is None,
        forall|i: int|
            0 <= i < failures.len() ==> {
                &&& (#[trigger] steps[i + 1]).article() == steps[i].article()
                &&& steps[i + 1].error() == Some(error_of(failures[i], steps[i].article()))
            },
    ensures
        steps.last().final_error() == (if failures.len() == 0 {
            StreamErrorView::AllServersExhausted(message_id)
        } else {
            error_of(failures.last(), message_id)
        }),
{
    if failures.len() > 0 {
        let n = failures.len() as int;
        lemma_article_kept(failures, steps, n - 1);
        assert(steps[n - 1 + 1].error() == Some(error_of(failures[n - 1], steps[n - 1].article())));
    }
}

/// An article counts as missing only where at least one server was asked and every one of
/// them lacks it. Where one failed in another way, that is the answer.
pub proof fn law_missing_where_every_server_lacks_it(
    failures: Seq<ServerFailure>,
    steps: Seq<Failover>,
)
    requires
        steps.len() == failures.len() + 1,
        steps[0].error() is None,
        steps[0].fault() is None,
        forall|i: int|
            0 <= i < failures.len() ==> {
                &&& (#[trigger] steps[i + 1]).error() == Some(
                    error_of(failures[i], steps[i].article()),
                )
                &&& steps[i + 1].fault() == (if failures[i] is NotFound {
                    steps[i].fault()
                } else {
                    steps[i + 1].error()
                })
            },
    ensures
        steps.last().final_answer() == Ok::<bool, StreamErrorView>(false) <==> failures.len() > 0
            && forall|i: int| 0 <= i < failures.len() ==> #[trigger] failures[i] is NotFound,
        !(steps.last().final_answer() == Ok::<bool, StreamErrorView>(true)),
{
    let n = failures.len() as int;
    lemma_fault(failures, steps, n);
    if n > 0 {
        assert(steps[n - 1 + 1].error() is Some);
    }
}

proof fn lemma_fault(failures: Seq<ServerFailure>, steps: Seq<Failover>, n: int)
    requires
        steps.len() == failures.len() + 1,
        0 <= n < steps.len(),
        steps[0].fault() is None,
        forall|i: int|
            0 <= i < failures.len() ==> {
                &&& (#[trigger] steps[i + 1]).error() == Some(
                    error_of(failures[i], steps[i].article()),
                )
                &&& steps[i + 1].fault() == (if failures[i] is NotFound {
                    steps[i].fault()
                } else {
                    steps[i + 1].error()
                })
            },
    ensures
        steps[n].fault() is None <==> forall|i: int|
            0 <= i < n ==> #[trigger] failures[i] is NotFound,
    decreases n,
{
    if n > 0 {
        lemma_fault(failures, steps, n - 1);
        assert(steps[n - 1 + 1].error() is Some);
        if steps[n].fault() is None {
            assert forall|i: int| 0 <= i < n implies #[trigger] failures[i] is NotFound by {
                if i < n - 1 {
                    assert(steps[n - 1].fault() is None);
                }
            }
        } else {
            assert(!(failures[n - 1] is NotFound) || steps[n - 1].fault() is Some);
        }
    }
}

proof fn lemma_article_kept(failures: Seq<ServerFailure>, steps: Seq<Failover>, n: int)
    requires
        steps.len() == failures.len() + 1,
        0 <= n < steps.len(),
        forall|i: int|
            0 <= i < failures.len() ==> (#[trigger] steps[i + 1]).article() == steps[i].article(),
    ensures
        steps[n].article() == steps[0].article(),
    decreases n,
{
    if n > 0 {
        lemma_article_kept(failures, steps, n - 1);
        assert(steps[n - 1 + 1].article() == steps[n - 1].article());
    }
}

} // verus!
