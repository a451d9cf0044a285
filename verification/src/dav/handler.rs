//! The WebDAV methods: which response answers a request, once the store has been asked.

use vstd::prelude::*;

use crate::dav::store;
use crate::dav::store::{BlobFormat, BodyStream, DatabaseStore, DavNode, Decryption};
use crate::error;
use crate::error::{DavErrorView, DavServerError};
use crate::models::{AesParams, DavItem, DavMultipartFile, DavNzbFile, ItemSubType};
use crate::num;
use crate::stream::multi_segment_stream;
use crate::stream::seekable_segment_stream;
use crate::stream::seekable_segment_stream::{SeekFrom, SeekableSegmentStream, SegmentSearch};
use crate::text;

verus! {

/// The largest body that an upload may have, in bytes.
pub const MAX_UPLOAD: usize = 52_428_800;

/// A node of a listing, with the address under which a client finds it.
#[derive(Clone, Debug, PartialEq, Eq)]
pub struct ListedNode {
    pub href: String,
    pub node: DavNode,
}

/// What a response carries.
#[derive(Clone, Debug, PartialEq, Eq)]
pub enum Payload {
    Empty,
    Text(String),
    Data(Vec<u8>),
    /// The nodes of a multi-status document.
    Listing(Vec<ListedNode>),
    /// The content of a file, from the stream that was opened for it.
    Stream,
}

/// A response: the status, the headers that are set, and what it carries.
#[derive(Clone, Debug, PartialEq, Eq)]
pub struct Response {
    pub status: u16,
    pub content_type: Option<String>,
    pub content_length: Option<u64>,
    pub content_range: Option<String>,
    pub etag: Option<String>,
    /// Whether `Accept-Ranges: bytes` is set.
    pub accept_ranges: bool,
    pub allow: Option<String>,
    pub dav: Option<String>,
    pub payload: Payload,
}

/// The status and the headers of a response.
pub struct Head {
    pub status: u16,
    pub content_type: Option<Seq<char>>,
    pub content_length: Option<u64>,
    pub content_range: Option<Seq<char>>,
    pub etag: Option<Seq<char>>,
    pub accept_ranges: bool,
    pub allow: Option<Seq<char>>,
    pub dav: Option<Seq<char>>,
}

/// A head with no header set.
pub open spec fn plain_head(status: u16) -> Head {
    Head {
        status,
        content_type: None,
        content_length: None,
        content_range: None,
        etag: None,
        accept_ranges: false,
        allow: None,
        dav: None,
    }
}

impl Response {
    /// The status and the headers.
    pub open spec fn head(self) -> Head {
        Head {
            status: self.status,
            content_type: text::chars_of(self.content_type),
            content_length: self.content_length,
            content_range: text::chars_of(self.content_range),
            etag: text::chars_of(self.etag),
            accept_ranges: self.accept_ranges,
            allow: text::chars_of(self.allow),
            dav: text::chars_of(self.dav),
        }
    }

    /// Whether the response is a status with a text.
    pub open spec fn says(self, status: u16, message: Seq<char>) -> bool {
        &&& self.head() == plain_head(status)
        &&& self.payload matches Payload::Text(t)
        &&& t@ == message
    }

    /// Whether the response reports an error.
    pub open spec fn reports(self, e: DavErrorView) -> bool {
        self.says(e.status(), e.message())
    }

    /// Whether the response is a status and nothing else.
    pub open spec fn is_status(self, status: u16) -> bool {
        self.head() == plain_head(status) && self.payload == Payload::Empty
    }

    /// A status and nothing else.
    pub(crate) fn bare(status: u16) -> (r: Self)
        ensures
            r.is_status(status),
    {
        Response {
            status,
            content_type: None,
            content_length: None,
            content_range: None,
            etag: None,
            accept_ranges: false,
            allow: None,
            dav: None,
            payload: Payload::Empty,
        }
    }

    /// A status with a text.
    pub(crate) fn message(status: u16, message: String) -> (r: Self)
        ensures
            r.says(status, message@),
    {
        let mut r = Response::bare(status);
        r.payload = Payload::Text(message);
        r
    }
}

/// Maps an error to a response.
pub fn error_response(err: DavServerError) -> (r: Response)
    ensures
        r.reports(err@),
{
    let (status, message) = error::status_and_message(err);
    Response::message(status, message)
}

/// The text that `percent_encoding` decodes from a text.
pub uninterp spec fn percent_decoded(s: Seq<char>) -> Seq<char>;

/// `percent_encoding::percent_decode_str` followed by `decode_utf8_lossy`: every `%` with
/// two hexadecimal digits becomes the byte that they name, and what is then no UTF-8 is
/// replaced. A text without `%` stays as it is. Which text comes out else is left unsaid.
#[verifier::external_body]
fn percent_decode(s: &str) -> (r: String)
    ensures
        r@ == percent_decoded(s@),
        !s@.contains('%') ==> r@ == s@,
{
    percent_encoding::percent_decode_str(s).decode_utf8_lossy().into_owned()
}

/// Decodes the path of an address.
pub fn decode_path(path: &str) -> (r: String)
    ensures
        r@ == percent_decoded(path@),
        !path@.contains('%') ==> r@ == path@,
{
    percent_decode(path)
}

/// The path of an address, where `http` can parse the address.
pub uninterp spec fn uri_path(s: Seq<char>) -> Option<Seq<char>>;

/// Parsing a text as an `http::Uri`, and `Uri::path` of the result: the path component, or
/// nothing where the text is no address. Which texts are addresses is left unsaid.
#[verifier::external_body]
fn parse_uri_path(s: &str) -> (r: Option<String>)
    ensures
        text::chars_of(r) == uri_path(s@),
{
    match s.parse::<http::Uri>() {
        Ok(uri) => Some(uri.path().to_string()),
        Err(_) => None,
    }
}

/// The path that a destination names: of an address its path component, else the text as
/// it stands.
pub fn destination_path(parsed: Option<String>, value: &str) -> (r: String)
    ensures
        r@ == percent_decoded(
            match parsed {
                Some(path) => path@,
                None => value@,
            },
        ),
{
    match parsed {
        Some(path) => decode_path(path.as_str()),
        None => decode_path(value),
    }
}

/// The path in a `Destination` header, which may be an address or just a path.
pub fn extract_destination(header: Option<&str>) -> (r: Option<String>)
    ensures
        match header {
            None => r is None,
            Some(value) => r is Some && r->0@ == percent_decoded(
                match uri_path(value@) {
                    Some(path) => path,
                    None => value@,
                },
            ),
        },
{
    match header {
        None => None,
        Some(value) => Some(destination_path(parse_uri_path(value), value)),
    }
}

/// What a request's address has before the path of the node that it leads to: the mount
/// point of the filesystem. Slashes at the ends are not compared.
pub open spec fn url_prefix(base: Seq<char>, path: Seq<char>) -> Seq<char> {
    let b = text::trimmed_end(base, '/');
    let p = text::trimmed_end(path, '/');
    if text::ends_with(b, p) {
        b.subrange(0, b.len() - p.len())
    } else {
        Seq::empty()
    }
}

/// Finds the mount point of the filesystem.
pub fn mount_prefix(base: &str, path: &str) -> (r: String)
    ensures
        r@ == url_prefix(base@, path@),
{
    let b = text::trim_end(base, '/');
    let p = text::trim_end(path, '/');
    let bc = text::to_chars(b.as_str());
    let pc = text::to_chars(p.as_str());
    if pc.len() > bc.len() {
        return String::new();
    }
    let tail = text::from_chars(bc.as_slice(), bc.len() - pc.len(), bc.len());
    if text::same(tail.as_str(), p.as_str()) {
        text::from_chars(bc.as_slice(), 0, bc.len() - pc.len())
    } else {
        String::new()
    }
}

/// Whether a depth header asks for the children too. Without one it does.
pub open spec fn wants_children(depth: Option<&str>) -> bool {
    !(depth matches Some(d) && d@ == "0"@)
}

/// Whether a depth header asks for the children too. Without one it does.
pub fn lists_children(depth: Option<&str>) -> (r: bool)
    ensures
        r == wants_children(depth),
{
    match depth {
        Some(d) => !text::same(d, "0"),
        None => true,
    }
}

/// Whether an entry lists a node under the mount point.
pub open spec fn is_listed(entry: ListedNode, node: DavNode, prefix: Seq<char>) -> bool {
    entry.node == node && entry.href@ == prefix + node.item.path@
}

/// PROPFIND: lists a node and, unless the depth is 0, its children.
///
/// `base_href` is the path of the request as the client sent it, with the mount point, and
/// `path` the same without it.
pub fn propfind(
    depth: Option<&str>,
    base_href: &str,
    path: &str,
    node: Result<Option<DavNode>, DavServerError>,
    children: Result<Vec<DavNode>, DavServerError>,
) -> (r: Response)
    ensures
        match node {
            Err(e) => r.reports(e@),
            Ok(None) => r.says(404, "Not Found"@),
            Ok(Some(first)) => match children {
                Err(e) if wants_children(depth) => r.reports(e@),
                _ => {
                    let rest = match children {
                        Ok(c) if wants_children(depth) => c@,
                        _ => Seq::empty(),
                    };
                    let prefix = url_prefix(base_href@, path@);
                    &&& r.head() == (Head {
                        content_type: Some("application/xml; charset=utf-8"@),
                        ..plain_head(207)
                    })
                    &&& r.payload matches Payload::Listing(entries)
                    &&& entries@.len() == rest.len() + 1
                    &&& is_listed(entries@[0], first, prefix)
                    &&& forall|i: int|
                        0 <= i < rest.len() ==> is_listed(
                            #[trigger] entries@[i + 1],
                            rest[i],
                            prefix,
                        )
                },
            },
        },
{
    let first = match node {
        Err(e) => {
            return error_response(e);
        },
        Ok(None) => {
            return Response::message(404, "Not Found".to_string());
        },
        Ok(Some(n)) => n,
    };
    let rest = if lists_children(depth) {
        match children {
            Err(e) => {
                return error_response(e);
            },
            Ok(c) => c,
        }
    } else {
        Vec::new()
    };
    let ghost listed = rest@;
    let prefix = mount_prefix(base_href, path);
    let mut entries: Vec<ListedNode> = Vec::new();
    entries.push(
        ListedNode { href: text::join(prefix.as_str(), first.item.path.as_str()), node: first },
    );
    for node in it: rest
        invariant
            it.seq() == listed,
            prefix@ == url_prefix(base_href@, path@),
            entries@.len() == it.index() + 1,
            is_listed(entries@[0], first, prefix@),
            forall|i: int|
                0 <= i < it.index() ==> is_listed(#[trigger] entries@[i + 1], listed[i], prefix@),
    {
        entries.push(
            ListedNode { href: text::join(prefix.as_str(), node.item.path.as_str()), node },
        );
    }
    let mut r = Response::bare(207);
    r.content_type = Some("application/xml; charset=utf-8".to_string());
    r.payload = Payload::Listing(entries);
    r
}

/// The headers with which an NZB file is sent.
pub open spec fn blob_head(node: DavNode, data: Seq<u8>) -> Head {
    Head {
        content_type: Some(node.content_type@),
        content_length: Some(data.len() as u64),
        etag: Some(node.etag@),
        ..plain_head(200)
    }
}

/// The size of a file as it is announced: of a file with segments of its own, the estimate
/// of its size after decoding.
pub open spec fn announced_size(item: DavItem, estimate: u64) -> int {
    if item.sub_type == ItemSubType::NzbFile {
        estimate as int
    } else {
        store::stored_size(item)
    }
}

/// The size of a file as it is announced.
fn size_to_announce(item: &DavItem, estimate: u64) -> (r: u64)
    ensures
        r == announced_size(*item, estimate),
{
    if matches!(item.sub_type, ItemSubType::NzbFile) {
        estimate
    } else {
        store::raw_size(item)
    }
}

/// What a GET request leads to.
#[derive(Clone, Debug, PartialEq, Eq)]
pub enum GetPlan {
    Respond(Response),
    /// The content comes from Usenet.
    Stream { node: DavNode, file_size: u64 },
    /// The content is the NZB file itself.
    NzbBlob { node: DavNode, blob_id: u128 },
}

/// GET: serves the content of a file.
///
/// `estimate` is the decoded size that the stored size of the file stands for.
pub fn get(node: Result<Option<DavNode>, DavServerError>, estimate: u64) -> (r: GetPlan)
    ensures
        match node {
            Err(e) => r matches GetPlan::Respond(a) && a.reports(e@),
            Ok(None) => r matches GetPlan::Respond(a) && a.says(404, "Not Found"@),
            Ok(Some(n)) => if n.is_collection {
                r matches GetPlan::Respond(a) && a.says(405, "Cannot GET a collection"@)
            } else if n.item.file_blob_id is Some {
                &&& r matches GetPlan::Stream { node: shown, file_size }
                &&& shown == n
                &&& file_size == announced_size(n.item, estimate)
            } else {
                match n.item.nzb_blob_id {
                    Some(id) => r == (GetPlan::NzbBlob { node: n, blob_id: id }),
                    None => r matches GetPlan::Respond(a) && a.says(404, "No content available"@),
                }
            },
        },
{
    let n = match node {
        Err(e) => {
            return GetPlan::Respond(error_response(e));
        },
        Ok(None) => {
            return GetPlan::Respond(Response::message(404, "Not Found".to_string()));
        },
        Ok(Some(n)) => n,
    };
    if n.is_collection {
        return GetPlan::Respond(Response::message(405, "Cannot GET a collection".to_string()));
    }
    if n.item.file_blob_id.is_some() {
        let file_size: u64 = size_to_announce(&n.item, estimate);
        return GetPlan::Stream { node: n, file_size };
    }
    match n.item.nzb_blob_id {
        Some(blob_id) => GetPlan::NzbBlob { node: n, blob_id },
        None => GetPlan::Respond(Response::message(404, "No content available".to_string())),
    }
}

/// HEAD: what GET sends of a file, without its content.
///
/// `blob` is what was read of the NZB file that the node stands for, where its content is
/// that.
pub fn head(
    node: Result<Option<DavNode>, DavServerError>,
    estimate: u64,
    blob: Result<Vec<u8>, DavServerError>,
) -> (r: Response)
    ensures
        match node {
            Err(e) => r.reports(e@),
            Ok(None) => r.says(404, "Not Found"@),
            Ok(Some(n)) => if n.is_collection {
                r.says(405, "Cannot HEAD a collection"@)
            } else if n.item.file_blob_id is Some {
                &&& r.head() == (Head {
                    content_length: Some(announced_size(n.item, estimate) as u64),
                    content_type: Some(n.content_type@),
                    etag: Some(n.etag@),
                    accept_ranges: true,
                    ..plain_head(200)
                })
                &&& r.payload == Payload::Empty
            } else {
                match (n.item.nzb_blob_id, blob) {
                    (None, _) => r.says(404, "No content available"@),
                    (Some(_), Err(e)) => r.reports(e@),
                    (Some(_), Ok(data)) => r.head() == blob_head(n, data@) && r.payload
                        == Payload::Empty,
                }
            },
        },
{
    let n = match node {
        Err(e) => {
            return error_response(e);
        },
        Ok(None) => {
            return Response::message(404, "Not Found".to_string());
        },
        Ok(Some(n)) => n,
    };
    if n.is_collection {
        return Response::message(405, "Cannot HEAD a collection".to_string());
    }
    if n.item.file_blob_id.is_some() {
        let mut r = Response::bare(200);
        r.content_length = Some(size_to_announce(&n.item, estimate));
        r.content_type = Some(n.content_type);
        r.etag = Some(n.etag);
        r.accept_ranges = true;
        return r;
    }
    if n.item.nzb_blob_id.is_none() {
        return Response::message(404, "No content available".to_string());
    }
    let mut r = serve_nzb_blob(&n, blob);
    if let Payload::Data(_) = r.payload {
        r.payload = Payload::Empty;
    }
    r
}

/// The response to an operation that creates something.
fn created(done: Result<(), DavServerError>) -> (r: Response)
    ensures
        match done {
            Ok(_) => r.is_status(201),
            Err(e) => r.reports(e@),
        },
{
    match done {
        Ok(_) => Response::bare(201),
        Err(e) => error_response(e),
    }
}

/// The response to an operation that leaves nothing to show.
fn no_content(done: Result<(), DavServerError>) -> (r: Response)
    ensures
        match done {
            Ok(_) => r.is_status(204),
            Err(e) => r.reports(e@),
        },
{
    match done {
        Ok(_) => Response::bare(204),
        Err(e) => error_response(e),
    }
}

/// PUT: the response once the NZB file was stored, or where the body could not be read.
pub fn put(stored: Option<Result<(), DavServerError>>) -> (r: Response)
    ensures
        match stored {
            None => r.says(400, "Failed to read body"@),
            Some(Ok(_)) => r.is_status(201),
            Some(Err(e)) => r.reports(e@),
        },
{
    match stored {
        None => Response::message(400, "Failed to read body".to_string()),
        Some(done) => created(done),
    }
}

/// MKCOL: the response once the directory was made.
pub fn mkcol(done: Result<(), DavServerError>) -> (r: Response)
    ensures
        match done {
            Ok(_) => r.is_status(201),
            Err(e) => r.reports(e@),
        },
{
    created(done)
}

/// DELETE: the response once the item was removed.
pub fn delete(done: Result<(), DavServerError>) -> (r: Response)
    ensures
        match done {
            Ok(_) => r.is_status(204),
            Err(e) => r.reports(e@),
        },
{
    no_content(done)
}

/// MOVE: the response once the item was moved, or without a destination.
pub fn move_to(moved: Option<Result<(), DavServerError>>) -> (r: Response)
    ensures
        match moved {
            None => r.says(400, "Missing Destination header"@),
            Some(Ok(_)) => r.is_status(204),
            Some(Err(e)) => r.reports(e@),
        },
{
    match moved {
        None => Response::message(400, "Missing Destination header".to_string()),
        Some(done) => no_content(done),
    }
}

/// COPY: the response once the item was copied, or without a destination.
pub fn copy(copied: Option<Result<(), DavServerError>>) -> (r: Response)
    ensures
        match copied {
            None => r.says(400, "Missing Destination header"@),
            Some(Ok(_)) => r.is_status(201),
            Some(Err(e)) => r.reports(e@),
        },
{
    match copied {
        None => Response::message(400, "Missing Destination header".to_string()),
        Some(done) => created(done),
    }
}

/// OPTIONS: which methods the server knows.
pub fn options() -> (r: Response)
    ensures
        r.head() == (Head {
            allow: Some("OPTIONS, GET, HEAD, PUT, DELETE, PROPFIND, MKCOL, MOVE, COPY"@),
            dav: Some("1, 2"@),
            content_length: Some(0),
            ..plain_head(200)
        }),
        r.payload == Payload::Empty,
{
    let mut r = Response::bare(200);
    r.allow = Some("OPTIONS, GET, HEAD, PUT, DELETE, PROPFIND, MKCOL, MOVE, COPY".to_string());
    r.dav = Some("1, 2".to_string());
    r.content_length = Some(0);
    r
}

/// A range of bytes, its end included.
#[derive(Clone, Copy, Debug, PartialEq, Eq, Structural)]
pub struct ByteRange {
    pub start: u64,
    pub end: u64,
}

impl ByteRange {
    /// The range holds a byte, and its length is a `u64`.
    pub open spec fn wf(self) -> bool {
        self.start <= self.end && self.end - self.start < u64::MAX
    }

    /// How many bytes the range holds.
    pub fn length(&self) -> (r: u64)
        requires
            self.wf(),
        ensures
            r == self.end - self.start + 1,
    {
        self.end - self.start + 1
    }
}

/// How a file is streamed.
#[derive(Clone, Debug, PartialEq, Eq)]
pub enum StreamPlan {
    Respond(Response),
    /// This range of the file is sent.
    Part(ByteRange),
    /// The whole file is sent.
    Full,
}

/// The content range of a request that cannot be met.
pub open spec fn unmet_range(file_size: u64) -> Seq<char> {
    "bytes */"@ + num::decimal(file_size as nat)
}

/// The content range of a part of a file.
pub open spec fn range_text(range: ByteRange, file_size: u64) -> Seq<char> {
    "bytes "@ + num::decimal(range.start as nat) + "-"@ + num::decimal(range.end as nat) + "/"@
        + num::decimal(file_size as nat)
}

/// Decides how a file is streamed. `ranges` is what the `Range` header asks for, where there
/// is one: the ranges, or that it cannot be met. Only the first range is served.
pub fn serve_streaming(
    file_size: u64,
    ranges: Option<Result<Vec<ByteRange>, DavServerError>>,
) -> (r: StreamPlan)
    requires
        ranges matches Some(Ok(v)) ==> v@.len() > 0,
    ensures
        match ranges {
            None => r == StreamPlan::Full,
            Some(Err(_)) => {
                &&& r matches StreamPlan::Respond(a)
                &&& a.head() == (Head {
                    content_range: Some(unmet_range(file_size)),
                    ..plain_head(416)
                })
                &&& a.payload == Payload::Empty
            },
            Some(Ok(v)) => r == StreamPlan::Part(v@[0]),
        },
{
    match ranges {
        None => StreamPlan::Full,
        Some(Err(_)) => {
            let size = num::to_decimal(file_size);
            let mut a = Response::bare(416);
            a.content_range = Some(text::join("bytes */", size.as_str()));
            StreamPlan::Respond(a)
        },
        Some(Ok(v)) => StreamPlan::Part(v[0]),
    }
}

/// The length that is announced of a range: none of a file with segments of its own, for
/// its size after decoding is an estimate, and the range may reach behind its end.
pub open spec fn announced_length(item: DavItem, range: ByteRange) -> Option<u64> {
    if item.sub_type == ItemSubType::NzbFile {
        None
    } else {
        Some((range.end - range.start + 1) as u64)
    }
}

/// The response that carries a range of a file, once the range was opened.
pub fn partial_response(
    node: &DavNode,
    file_size: u64,
    range: ByteRange,
    opened: Result<(), DavServerError>,
) -> (r: Response)
    requires
        range.wf(),
    ensures
        match opened {
            Err(e) => r.reports(e@),
            Ok(_) => {
                &&& r.head() == (Head {
                    content_type: Some(node.content_type@),
                    content_length: announced_length(node.item, range),
                    content_range: Some(range_text(range, file_size)),
                    etag: Some(node.etag@),
                    accept_ranges: true,
                    ..plain_head(206)
                })
                &&& r.payload == Payload::Stream
            },
        },
{
    if let Err(e) = opened {
        return error_response(e);
    }
    let start = num::to_decimal(range.start);
    let end = num::to_decimal(range.end);
    let size = num::to_decimal(file_size);
    let mut content_range = text::join3("bytes ", start.as_str(), "-");
    content_range.append(end.as_str());
    content_range.append("/");
    content_range.append(size.as_str());
    let mut r = Response::bare(206);
    r.content_type = Some(node.content_type.clone());
    if !matches!(node.item.sub_type, ItemSubType::NzbFile) {
        r.content_length = Some(range.length());
    }
    r.content_range = Some(content_range);
    r.etag = Some(node.etag.clone());
    r.accept_ranges = true;
    r.payload = Payload::Stream;
    r
}

/// The error of a stream that could not be moved to the start of a range.
pub fn seek_error(error: &str) -> (r: DavServerError)
    ensures
        r@ == DavErrorView::Other("seek error: "@ + error@),
{
    DavServerError::Other(text::join("seek error: ", error))
}

/// The response that carries a whole file, once its stream was opened.
pub fn full_response(node: &DavNode, opened: Result<(), DavServerError>) -> (r: Response)
    ensures
        match opened {
            Err(e) => r.reports(e@),
            Ok(_) => {
                &&& r.head() == (Head {
                    content_type: Some(node.content_type@),
                    etag: Some(node.etag@),
                    ..plain_head(200)
                })
                &&& r.payload == Payload::Stream
            },
        },
{
    match opened {
        Err(e) => error_response(e),
        Ok(_) => {
            let mut r = Response::bare(200);
            r.content_type = Some(node.content_type.clone());
            r.etag = Some(node.etag.clone());
            r.payload = Payload::Stream;
            r
        },
    }
}

/// A stream of which a range is served: `length` bytes from `start` on.
#[derive(Clone, Debug, PartialEq, Eq)]
pub struct RangedBody {
    pub stream: BodyStream,
    /// Where the stream is read from.
    pub start: u64,
    /// How many bytes of it are taken.
    pub length: u64,
}

/// Which metadata the blob of a file is decoded as, to serve a range of the file.
pub fn build_ranged_body(item: &DavItem, blob: Result<Vec<u8>, DavServerError>) -> (r: Result<
    (BlobFormat, Vec<u8>),
    DavServerError,
>)
    ensures
        match (item.file_blob_id, blob) {
            (None, _) => r is Err && r->Err_0@ == DavErrorView::NotFound("no file blob"@),
            (Some(_), Err(e)) => r is Err && r->Err_0@ == e@,
            (Some(_), Ok(data)) => match item.sub_type {
                ItemSubType::MultipartFile => r == Ok::<(BlobFormat, Vec<u8>), DavServerError>(
                    (BlobFormat::Multipart, data),
                ),
                ItemSubType::NzbFile => r == Ok::<(BlobFormat, Vec<u8>), DavServerError>(
                    (BlobFormat::Nzb, data),
                ),
                other => r is Err && r->Err_0@ == DavErrorView::Other(
                    "unsupported sub_type for range: "@ + other.label(),
                ),
            },
        },
{
    if item.file_blob_id.is_none() {
        return Err(DavServerError::NotFound("no file blob".to_string()));
    }
    let data = match blob {
        Ok(data) => data,
        Err(e) => {
            return Err(e);
        },
    };
    match item.sub_type {
        ItemSubType::MultipartFile => Ok((BlobFormat::Multipart, data)),
        ItemSubType::NzbFile => Ok((BlobFormat::Nzb, data)),
        other => Err(
            DavServerError::Other(text::join("unsupported sub_type for range: ", other.name())),
        ),
    }
}

/// The range of a file that is put together from parts.
pub fn ranged_parts(
    db_store: &DatabaseStore,
    item: &DavItem,
    meta: Result<DavMultipartFile, String>,
    range: ByteRange,
) -> (r: Result<RangedBody, DavServerError>)
    requires
        range.wf(),
    ensures
        match meta {
            Err(e) => r is Err && r->Err_0@ == DavErrorView::Other("deserialize error: "@ + e@),
            Ok(m) => {
                &&& r matches Ok(body)
                &&& body.start == range.start
                &&& body.length == range.end - range.start + 1
                &&& body.stream matches BodyStream::Parts {
                    parts,
                    file_size,
                    lookahead,
                    decryption,
                }
                &&& parts == m.file_parts
                &&& file_size == store::stored_size(*item)
                &&& lookahead == db_store.lookahead
                &&& match m.aes_params {
                    Some(a) => decryption matches Some(d) && d.key == a.key && d.iv == a.iv
                        && d.decoded_size == num::as_unsigned(a.decoded_size),
                    None => decryption is None,
                }
            },
        },
{
    let m = match meta {
        Ok(m) => m,
        Err(e) => {
            return Err(DavServerError::Other(text::join("deserialize error: ", e.as_str())));
        },
    };
    let decryption = match m.aes_params {
        Some(AesParams { key, iv, decoded_size }) => Some(
            Decryption { key, iv, decoded_size: num::to_unsigned(decoded_size) },
        ),
        None => None,
    };
    let stream = BodyStream::Parts {
        parts: m.file_parts,
        file_size: store::raw_size(item),
        lookahead: db_store.lookahead,
        decryption,
    };
    Ok(RangedBody { stream, start: range.start, length: range.length() })
}

/// A stream over the segments of a file, at the start of a range. A range that starts
/// behind the file leads to its end.
pub open spec fn sought(
    s: SeekableSegmentStream,
    segment_ids: Vec<String>,
    file_size: u64,
    lookahead: usize,
    start: u64,
) -> bool {
    exists|fresh: SeekableSegmentStream|
        fresh.is_fresh(segment_ids, file_size, lookahead) && s == #[trigger] fresh.seeking(
            SeekFrom::Start(start),
        ).completed()
}

/// The range of a file with segments of its own. Its stream is at the start of the range.
pub fn ranged_segments(
    db_store: &DatabaseStore,
    item: &DavItem,
    meta: Result<DavNzbFile, String>,
    range: ByteRange,
) -> (r: Result<RangedBody, DavServerError>)
    requires
        range.wf(),
    ensures
        match meta {
            Err(e) => r is Err && r->Err_0@ == DavErrorView::Other("deserialize error: "@ + e@),
            Ok(m) => {
                &&& r matches Ok(body)
                &&& body.start == range.start
                &&& body.length == range.end - range.start + 1
                &&& body.stream matches BodyStream::Segments(s)
                &&& s.wf()
                &&& sought(
                    s,
                    m.segment_ids,
                    store::stored_size(*item) as u64,
                    db_store.lookahead,
                    range.start,
                )
            },
        },
{
    match meta {
        Ok(m) => {
            let mut stream = SeekableSegmentStream::new(
                m.segment_ids,
                store::raw_size(item),
                db_store.lookahead,
            );
            let ghost fresh = stream;
            if let Err(_) = stream.start_seek(SeekFrom::Start(range.start)) {
                return Err(seek_error("seek to negative position"));
            }
            let _ = stream.poll_complete();
            assert(stream == fresh.seeking(SeekFrom::Start(range.start)).completed());
            Ok(
                RangedBody {
                    stream: BodyStream::Segments(stream),
                    start: range.start,
                    length: range.length(),
                },
            )
        },
        Err(e) => Err(DavServerError::Other(text::join("deserialize error: ", e.as_str()))),
    }
}

/// The response that carries an NZB file, once its blob was read.
pub fn serve_nzb_blob(node: &DavNode, blob: Result<Vec<u8>, DavServerError>) -> (r: Response)
    ensures
        match (node.item.nzb_blob_id, blob) {
            (None, _) => r.says(404, "No NZB blob"@),
            (Some(_), Err(e)) => r.reports(e@),
            (Some(_), Ok(data)) => {
                &&& r.head() == blob_head(*node, data@)
                &&& r.payload == Payload::Data(data)
            },
        },
{
    if node.item.nzb_blob_id.is_none() {
        return Response::message(404, "No NZB blob".to_string());
    }
    match blob {
        Err(e) => error_response(e),
        Ok(data) => {
            let mut r = Response::bare(200);
            r.content_type = Some(node.content_type.clone());
            r.content_length = Some(data.len() as u64);
            r.etag = Some(node.etag.clone());
            r.payload = Payload::Data(data);
            r
        },
    }
}

/// Where a request's address ends in the path of the node that it leads to, the mount point
/// and that path together are the address.
pub proof fn law_prefix_and_path_are_the_address(base: Seq<char>, path: Seq<char>)
    requires
        text::ends_with(text::trimmed_end(base, '/'), text::trimmed_end(path, '/')),
    ensures
        url_prefix(base, path) + text::trimmed_end(path, '/') == text::trimmed_end(base, '/'),
{
    let b = text::trimmed_end(base, '/');
    let p = text::trimmed_end(path, '/');
    assert(url_prefix(base, path) + p =~= b);
}

/// A filesystem mounted at `mount` is listed under it: whatever node a request leads to, the
/// mount point is found from the address.
pub proof fn law_mount_point_is_found(mount: Seq<char>, path: Seq<char>)
    requires
        path.len() > 0,
        path[0] == '/',
        mount.len() > 0,
        mount.last() != '/',
    ensures
        url_prefix(mount + path, path) == mount,
{
    let b = text::trimmed_end(mount + path, '/');
    let p = text::trimmed_end(path, '/');
    text::lemma_trimmed_end(path, '/');
    assert forall|i: int| mount.len() + p.len() <= i < (mount + path).len() implies (mount
        + path)[i] == '/' by {
        assert(path[i - mount.len()] == '/');
    }
    if p.len() > 0 {
        assert((mount + path)[mount.len() + p.len() - 1] == p.last());
    }
    text::lemma_trimmed_end_unique(mount + path, '/', (mount.len() + p.len()) as int);
    assert(b =~= mount + p);
    assert(b.subrange(b.len() - p.len(), b.len() as int) =~= p);
    assert(b.subrange(0, b.len() - p.len()) =~= mount);
}

/// The body that is served for a range of a file with segments of its own holds exactly the
/// bytes of that range: of what its stream gives, the first `length` bytes are those.
pub proof fn law_range_body_is_exact(
    s: SeekableSegmentStream,
    segment_ids: Vec<String>,
    file_size: u64,
    lookahead: usize,
    range: ByteRange,
    file: Seq<Seq<u8>>,
    bounds: Seq<u64>,
    guess: spec_fn(SegmentSearch) -> int,
    rooms: Seq<nat>,
)
    requires
        sought(s, segment_ids, file_size, lookahead, range.start),
        seekable_segment_stream::has_layout(file, bounds),
        segment_ids@.len() == file.len(),
        file.len() <= usize::MAX,
        range.start <= range.end < bounds.last(),
        range.start < file_size,
    ensures
        ({
            let end = seekable_segment_stream::after_polls(s.reading(file, bounds, guess), rooms);
            let length = range.end - range.start + 1;
            let content = multi_segment_stream::joined(file);
            &&& end.out.len() >= length ==> end.out.take(length) == content.subrange(
                range.start as int,
                range.end + 1,
            )
            &&& end.articles.done && end.articles.pending.len() == 0 ==> end.out.len() >= length
        }),
{
    let fresh = choose|fresh: SeekableSegmentStream|
        fresh.is_fresh(segment_ids, file_size, lookahead) && s == #[trigger] fresh.seeking(
            SeekFrom::Start(range.start),
        ).completed();
    seekable_segment_stream::law_range_holds_its_bytes(
        fresh,
        range.start,
        (range.end - range.start + 1) as u64,
        file,
        bounds,
        guess,
        rooms,
    );
}

} // verus!
