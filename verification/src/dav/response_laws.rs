//! What holds of the responses: what they announce is what they carry, and each error has
//! its status. Each law speaks of the functions themselves: `call_ensures(f, args, r)` says
//! that `f` returns `r` for these arguments.

use vstd::prelude::*;

use crate::dav::handler;
use crate::dav::handler::{ByteRange, GetPlan, Payload, RangedBody, Response, StreamPlan};
use crate::dav::store;
use crate::dav::store::{BlobFormat, BodyStream, DatabaseStore, DavNode};
use crate::error;
use crate::error::DavServerError;
use crate::frontend;
use crate::models::{DavItem, DavMultipartFile, DavNzbFile, ItemSubType};
use crate::num;
use crate::text;

verus! {

/// Whether a response sets no header.
pub open spec fn is_plain(r: Response) -> bool {
    &&& r.content_type is None
    &&& r.content_length is None
    &&& r.content_range is None
    &&& r.etag is None
    &&& !r.accept_ranges
    &&& r.allow is None
    &&& r.dav is None
}

/// Whether a response is a status and a text.
pub open spec fn tells(r: Response, status: int, message: Seq<char>) -> bool {
    &&& r.status == status
    &&& is_plain(r)
    &&& r.payload matches Payload::Text(t)
    &&& t@ == message
}

/// Whether a response is a status and nothing else.
pub open spec fn is_only(r: Response, status: int) -> bool {
    r.status == status && is_plain(r) && r.payload == Payload::Empty
}

/// The text of an error.
pub open spec fn text_in(err: DavServerError) -> Seq<char> {
    match err {
        DavServerError::NotFound(m) => m@,
        DavServerError::Conflict(m) => m@,
        DavServerError::MethodNotAllowed(m) => m@,
        DavServerError::PreconditionFailed(m) => m@,
        DavServerError::Forbidden(m) => m@,
        DavServerError::InvalidRange(m) => m@,
        DavServerError::Database(m) => m@,
        DavServerError::Other(m) => m@,
    }
}

/// Every error is answered with the status that HTTP has for it, and with its own text.
pub proof fn law_errors_have_their_status(
    err: DavServerError,
    r: Response,
    pair: (u16, String),
)
    requires
        call_ensures(handler::error_response, (err,), r),
        call_ensures(error::status_and_message, (err,), pair),
    ensures
        tells(r, pair.0 as int, text_in(err)),
        pair.1@ == text_in(err),
        err is NotFound ==> r.status == 404,
        err is Conflict ==> r.status == 409,
        err is MethodNotAllowed ==> r.status == 405,
        err is PreconditionFailed ==> r.status == 412,
        err is Forbidden ==> r.status == 403,
        err is InvalidRange ==> r.status == 416,
        err is Database ==> r.status == 500,
        err is Other ==> r.status == 500,
{
}

/// A path without escapes stands for itself, and a destination is decoded as a path is:
/// the path of the address that it is, or the text where it is none.
pub proof fn law_destinations_are_paths(
    path: String,
    value: &str,
    plain: &str,
    decoded: String,
    of_address: String,
    of_text: String,
    decoded_value: String,
)
    requires
        plain@ == path@,
        call_ensures(handler::decode_path, (plain,), decoded),
        call_ensures(handler::decode_path, (value,), decoded_value),
        call_ensures(handler::destination_path, (Some(path), value), of_address),
        call_ensures(handler::destination_path, (None, value), of_text),
    ensures
        of_address@ == decoded@,
        of_text@ == decoded_value@,
        !path@.contains('%') ==> of_address@ == path@,
        !value@.contains('%') ==> of_text@ == value@,
{
}

/// A header that is given has a destination, one that is not has none.
pub proof fn law_destination_headers_are_read(
    value: &str,
    with: Option<String>,
    without: Option<String>,
)
    requires
        call_ensures(handler::extract_destination, (Some(value),), with),
        call_ensures(handler::extract_destination, (None,), without),
    ensures
        without is None,
        with is Some,
        handler::uri_path(value@) matches Some(path) ==> with->0@ == handler::percent_decoded(
            path,
        ),
        handler::uri_path(value@) is None ==> with->0@ == handler::percent_decoded(value@),
{
}

/// The mount point is found from an address that ends in the path of a node.
proof fn lemma_mount(mount: Seq<char>, path: Seq<char>)
    requires
        path.len() > 0,
        path[0] == '/',
        mount.len() > 0 ==> mount.last() != '/',
    ensures
        handler::url_prefix(mount + path, path) == mount,
{
    if mount.len() > 0 {
        handler::law_mount_point_is_found(mount, path);
    } else {
        assert(mount + path =~= path);
        let p = text::trimmed_end(path, '/');
        assert(p.subrange(0, p.len() as int) =~= p);
        assert(p.subrange(0, 0) =~= mount);
    }
}

/// The mount point of an address is what it has before the path.
pub proof fn law_mount_point_comes_before_the_path(
    mount: Seq<char>,
    base: &str,
    path: &str,
    r: String,
)
    requires
        base@ == mount + path@,
        path@.len() > 0,
        path@[0] == '/',
        mount.len() > 0 ==> mount.last() != '/',
        call_ensures(handler::mount_prefix, (base, path), r),
    ensures
        r@ == mount,
{
    lemma_mount(mount, path@);
}

/// An address that does not end in the path has no mount point.
pub proof fn law_other_addresses_have_no_mount_point(base: &str, path: &str, r: String)
    requires
        base@.len() > 0 && base@.last() != '/',
        path@.len() > 0 && path@.last() != '/',
        forall|mount: Seq<char>| #[trigger] (mount + path@) != base@,
        call_ensures(handler::mount_prefix, (base, path), r),
    ensures
        r@.len() == 0,
{
    let b = base@;
    let p = path@;
    if text::ends_with(b, p) {
        let mount = b.subrange(0, b.len() - p.len());
        assert(mount + p =~= b);
    }
}

/// A listing shows the node that was asked for and, unless the depth is 0, each of its
/// children, in their order, under the mount point and its path.
pub proof fn law_listings_show_the_nodes(
    depth: Option<&str>,
    mount: Seq<char>,
    base: &str,
    path: &str,
    first: DavNode,
    children: Vec<DavNode>,
    deep: bool,
    r: Response,
)
    requires
        base@ == mount + path@,
        path@.len() > 0,
        path@[0] == '/',
        mount.len() > 0 ==> mount.last() != '/',
        call_ensures(handler::lists_children, (depth,), deep),
        call_ensures(
            handler::propfind,
            (depth, base, path, Ok(Some(first)), Ok(children)),
            r,
        ),
    ensures
        deep <==> (depth matches Some(d) ==> d@ != "0"@),
        r.status == 207,
        r.content_type matches Some(c) && c@ == "application/xml; charset=utf-8"@,
        r.content_length is None && r.content_range is None && r.etag is None,
        !r.accept_ranges && r.allow is None && r.dav is None,
        r.payload is Listing,
        ({
            let entries = r.payload->Listing_0@;
            &&& entries.len() == (if deep {
                children@.len() + 1
            } else {
                1
            })
            &&& entries[0].node == first
            &&& entries[0].href@ == mount + first.item.path@
            &&& deep ==> forall|i: int|
                0 <= i < children@.len() ==> (#[trigger] entries[i + 1]).node == children@[i]
                    && entries[i + 1].href@ == mount + children@[i].item.path@
        }),
{
    lemma_mount(mount, path@);
}

/// A node that is not there is not found, and an error is reported, whichever of the queries
/// it comes from.
pub proof fn law_listings_report_failures(
    depth: Option<&str>,
    base: &str,
    path: &str,
    first: DavNode,
    nodes: Result<Vec<DavNode>, DavServerError>,
    e: DavServerError,
    reported: Response,
    a: Response,
    b: Response,
    c: Response,
)
    requires
        depth matches Some(d) ==> d@ != "0"@,
        call_ensures(handler::error_response, (e,), reported),
        call_ensures(handler::propfind, (depth, base, path, Err(e), nodes), a),
        call_ensures(handler::propfind, (depth, base, path, Ok(Some(first)), Err(e)), b),
        call_ensures(handler::propfind, (depth, base, path, Ok(None), nodes), c),
    ensures
        tells(a, reported.status as int, text_in(e)),
        tells(b, reported.status as int, text_in(e)),
        tells(c, 404, "Not Found"@),
{
}

/// A file whose content comes from Usenet is served with its size: what is stored, or for a
/// file with segments of its own the estimate. Asking for its head alone announces the same.
pub proof fn law_heads_announce_what_is_streamed(
    n: DavNode,
    estimate: u64,
    blob: Result<Vec<u8>, DavServerError>,
    plan: GetPlan,
    h: Response,
)
    requires
        !n.is_collection,
        n.item.file_blob_id is Some,
        call_ensures(handler::get, (Ok(Some(n)), estimate), plan),
        call_ensures(handler::head, (Ok(Some(n)), estimate, blob), h),
    ensures
        plan is Stream,
        plan->Stream_node == n,
        h.status == 200,
        h.content_length == Some(plan->file_size),
        h.content_type matches Some(c) && c@ == n.content_type@,
        h.etag matches Some(t) && t@ == n.etag@,
        h.accept_ranges,
        h.content_range is None && h.allow is None && h.dav is None,
        h.payload == Payload::Empty,
        n.item.sub_type == ItemSubType::NzbFile ==> plan->file_size == estimate,
        n.item.sub_type != ItemSubType::NzbFile ==> match n.item.file_size {
            Some(size) if size >= 0 => plan->file_size == size,
            Some(size) => plan->file_size == size + 0x1_0000_0000_0000_0000,
            None => plan->file_size == 0,
        },
{
}

/// An NZB file is sent whole, and its head announces as many bytes as are sent, of the same
/// type and with the same tag.
pub proof fn law_heads_announce_the_nzb_file(
    n: DavNode,
    estimate: u64,
    data: Vec<u8>,
    plan: GetPlan,
    sent: Response,
    h: Response,
)
    requires
        !n.is_collection,
        n.item.file_blob_id is None,
        n.item.nzb_blob_id is Some,
        call_ensures(handler::get, (Ok(Some(n)), estimate), plan),
        call_ensures(handler::serve_nzb_blob, (&n, Ok(data)), sent),
        call_ensures(handler::head, (Ok(Some(n)), estimate, Ok(data)), h),
    ensures
        plan is NzbBlob,
        plan->NzbBlob_node == n,
        Some(plan->blob_id) == n.item.nzb_blob_id,
        sent.status == 200 && h.status == 200,
        sent.payload == Payload::Data(data),
        h.payload == Payload::Empty,
        sent.content_length matches Some(c) && c == data@.len(),
        h.content_length == sent.content_length,
        sent.content_type matches Some(c) && c@ == n.content_type@,
        h.content_type matches Some(c) && c@ == n.content_type@,
        sent.etag matches Some(t) && t@ == n.etag@,
        h.etag matches Some(t) && t@ == n.etag@,
        !sent.accept_ranges && !h.accept_ranges,
        sent.content_range is None && sent.allow is None && sent.dav is None,
        h.content_range is None && h.allow is None && h.dav is None,
{
    assert(data.len() == data@.len());
}

/// A request for what has no content is refused, and an error is reported.
pub proof fn law_nothing_is_served_of_nothing(
    n: DavNode,
    estimate: u64,
    blob: Result<Vec<u8>, DavServerError>,
    e: DavServerError,
    reported: Response,
    plan: GetPlan,
    h: Response,
    missing: GetPlan,
    missing_head: Response,
    failed: GetPlan,
    failed_head: Response,
)
    requires
        n.is_collection || (n.item.file_blob_id is None && n.item.nzb_blob_id is None),
        call_ensures(handler::error_response, (e,), reported),
        call_ensures(handler::get, (Ok(Some(n)), estimate), plan),
        call_ensures(handler::head, (Ok(Some(n)), estimate, blob), h),
        call_ensures(handler::get, (Ok(None), estimate), missing),
        call_ensures(handler::head, (Ok(None), estimate, blob), missing_head),
        call_ensures(handler::get, (Err(e), estimate), failed),
        call_ensures(handler::head, (Err(e), estimate, blob), failed_head),
    ensures
        plan is Respond && missing is Respond && failed is Respond,
        n.is_collection ==> tells(plan->Respond_0, 405, "Cannot GET a collection"@),
        n.is_collection ==> tells(h, 405, "Cannot HEAD a collection"@),
        !n.is_collection ==> tells(plan->Respond_0, 404, "No content available"@),
        !n.is_collection ==> tells(h, 404, "No content available"@),
        tells(missing->Respond_0, 404, "Not Found"@),
        tells(missing_head, 404, "Not Found"@),
        tells(failed->Respond_0, reported.status as int, text_in(e)),
        tells(failed_head, reported.status as int, text_in(e)),
{
}

/// An NZB file that cannot be read is reported, to a request for its head too.
pub proof fn law_lost_nzb_files_are_reported(
    n: DavNode,
    bare: DavNode,
    estimate: u64,
    blob: Result<Vec<u8>, DavServerError>,
    e: DavServerError,
    reported: Response,
    sent: Response,
    h: Response,
    none: Response,
)
    requires
        !n.is_collection,
        n.item.file_blob_id is None,
        n.item.nzb_blob_id is Some,
        bare.item.nzb_blob_id is None,
        call_ensures(handler::error_response, (e,), reported),
        call_ensures(handler::serve_nzb_blob, (&n, Err(e)), sent),
        call_ensures(handler::head, (Ok(Some(n)), estimate, Err(e)), h),
        call_ensures(handler::serve_nzb_blob, (&bare, blob), none),
    ensures
        tells(sent, reported.status as int, text_in(e)),
        tells(h, reported.status as int, text_in(e)),
        tells(none, 404, "No NZB blob"@),
{
}

/// What creates something is answered with 201, what leaves nothing to show with 204, and
/// what fails with its error.
pub proof fn law_changes_are_answered(
    e: DavServerError,
    reported: Response,
    put_ok: Response,
    put_err: Response,
    put_none: Response,
    mk_ok: Response,
    mk_err: Response,
    del_ok: Response,
    del_err: Response,
)
    requires
        call_ensures(handler::error_response, (e,), reported),
        call_ensures(handler::put, (Some(Ok(())),), put_ok),
        call_ensures(handler::put, (Some(Err(e)),), put_err),
        call_ensures(handler::put, (None,), put_none),
        call_ensures(handler::mkcol, (Ok(()),), mk_ok),
        call_ensures(handler::mkcol, (Err(e),), mk_err),
        call_ensures(handler::delete, (Ok(()),), del_ok),
        call_ensures(handler::delete, (Err(e),), del_err),
    ensures
        is_only(put_ok, 201),
        tells(put_err, reported.status as int, text_in(e)),
        tells(put_none, 400, "Failed to read body"@),
        is_only(mk_ok, 201),
        tells(mk_err, reported.status as int, text_in(e)),
        is_only(del_ok, 204),
        tells(del_err, reported.status as int, text_in(e)),
{
}

/// A move and a copy are answered by what they did, and refused without a destination.
pub proof fn law_transfers_are_answered(
    e: DavServerError,
    reported: Response,
    mv_ok: Response,
    mv_err: Response,
    mv_none: Response,
    cp_ok: Response,
    cp_err: Response,
    cp_none: Response,
)
    requires
        call_ensures(handler::error_response, (e,), reported),
        call_ensures(handler::move_to, (Some(Ok(())),), mv_ok),
        call_ensures(handler::move_to, (Some(Err(e)),), mv_err),
        call_ensures(handler::move_to, (None,), mv_none),
        call_ensures(handler::copy, (Some(Ok(())),), cp_ok),
        call_ensures(handler::copy, (Some(Err(e)),), cp_err),
        call_ensures(handler::copy, (None,), cp_none),
    ensures
        is_only(mv_ok, 204),
        tells(mv_err, reported.status as int, text_in(e)),
        tells(mv_none, 400, "Missing Destination header"@),
        is_only(cp_ok, 201),
        tells(cp_err, reported.status as int, text_in(e)),
        tells(cp_none, 400, "Missing Destination header"@),
{
}

/// The server names its methods.
pub proof fn law_methods_are_named(r: Response)
    requires
        call_ensures(handler::options, (), r),
    ensures
        r.status == 200,
        r.allow matches Some(a) && a@
            == "OPTIONS, GET, HEAD, PUT, DELETE, PROPFIND, MKCOL, MOVE, COPY"@,
        r.dav matches Some(d) && d@ == "1, 2"@,
        r.content_length == Some(0u64),
        r.content_type is None && r.content_range is None && r.etag is None && !r.accept_ranges,
        r.payload == Payload::Empty,
{
}

/// A file is sent whole unless a range of it is asked for, and then the first range is. A
/// range that cannot be met is answered with the size of the file.
pub proof fn law_first_range_is_served(
    file_size: u64,
    v: Vec<ByteRange>,
    e: DavServerError,
    size: String,
    whole: StreamPlan,
    part: StreamPlan,
    unmet: StreamPlan,
)
    requires
        v@.len() > 0,
        call_ensures(num::to_decimal, (file_size,), size),
        call_ensures(handler::serve_streaming, (file_size, None), whole),
        call_ensures(handler::serve_streaming, (file_size, Some(Ok(v))), part),
        call_ensures(handler::serve_streaming, (file_size, Some(Err(e))), unmet),
    ensures
        whole == StreamPlan::Full,
        part == StreamPlan::Part(v@[0]),
        unmet is Respond,
        ({
            let r = unmet->Respond_0;
            &&& r.status == 416
            &&& r.content_range matches Some(c) && c@ == "bytes */"@ + size@
            &&& r.content_type is None && r.content_length is None && r.etag is None
            &&& !r.accept_ranges && r.allow is None && r.dav is None
            &&& r.payload == Payload::Empty
        }),
{
}

/// The response to a range announces as many bytes as the body for the same range holds:
/// those from its start to its end, both included. Of a file with segments of its own, whose
/// size is an estimate, it announces none.
pub proof fn law_ranges_announce_their_length(
    node: &DavNode,
    file_size: u64,
    range: ByteRange,
    length: u64,
    db_store: &DatabaseStore,
    meta: DavMultipartFile,
    body: RangedBody,
    r: Response,
)
    requires
        range.start <= range.end,
        range.end - range.start < u64::MAX,
        call_ensures(ByteRange::length, (&range,), length),
        call_ensures(
            handler::ranged_parts,
            (db_store, &node.item, Ok(meta), range),
            Ok(body),
        ),
        call_ensures(handler::partial_response, (node, file_size, range, Ok(())), r),
    ensures
        length == range.end - range.start + 1,
        body.start == range.start,
        body.length == length,
        body.start + body.length - 1 == range.end,
        node.item.sub_type != ItemSubType::NzbFile ==> r.content_length == Some(body.length),
        node.item.sub_type == ItemSubType::NzbFile ==> r.content_length is None,
{
}

/// The response to a range is partial content, and says which bytes of how many it carries.
pub proof fn law_ranges_say_what_they_carry(
    node: &DavNode,
    file_size: u64,
    range: ByteRange,
    from: String,
    to: String,
    size: String,
    r: Response,
)
    requires
        range.start <= range.end,
        range.end - range.start < u64::MAX,
        call_ensures(num::to_decimal, (range.start,), from),
        call_ensures(num::to_decimal, (range.end,), to),
        call_ensures(num::to_decimal, (file_size,), size),
        call_ensures(handler::partial_response, (node, file_size, range, Ok(())), r),
    ensures
        r.status == 206,
        r.content_range matches Some(c) && c@ == "bytes "@ + from@ + "-"@ + to@ + "/"@ + size@,
        r.content_type matches Some(c) && c@ == node.content_type@,
        r.etag matches Some(t) && t@ == node.etag@,
        r.accept_ranges,
        r.allow is None && r.dav is None,
        r.payload == Payload::Stream,
{
}

/// A whole file is sent as the node's type, with its tag. What cannot be opened is reported.
pub proof fn law_whole_files_are_sent(
    node: &DavNode,
    file_size: u64,
    range: ByteRange,
    e: DavServerError,
    reported: Response,
    ok: Response,
    bad: Response,
    bad_range: Response,
)
    requires
        range.start <= range.end,
        range.end - range.start < u64::MAX,
        call_ensures(handler::error_response, (e,), reported),
        call_ensures(handler::full_response, (node, Ok(())), ok),
        call_ensures(handler::full_response, (node, Err(e)), bad),
        call_ensures(handler::partial_response, (node, file_size, range, Err(e)), bad_range),
    ensures
        ok.status == 200,
        ok.content_type matches Some(c) && c@ == node.content_type@,
        ok.etag matches Some(t) && t@ == node.etag@,
        ok.content_length is None && ok.content_range is None && !ok.accept_ranges,
        ok.allow is None && ok.dav is None,
        ok.payload == Payload::Stream,
        tells(bad, reported.status as int, text_in(e)),
        tells(bad_range, reported.status as int, text_in(e)),
{
}

/// A file and a range of it are read from the same metadata: that of a file put together from
/// parts, or that of one with segments of its own. Nothing else has content.
pub proof fn law_ranges_read_the_same_metadata(
    db_store: &DatabaseStore,
    item: &DavItem,
    data: Vec<u8>,
    id: Result<u128, DavServerError>,
    whole: Result<(BlobFormat, Vec<u8>), DavServerError>,
    part: Result<(BlobFormat, Vec<u8>), DavServerError>,
)
    requires
        call_ensures(store::body_blob, (item,), id),
        call_ensures(DatabaseStore::get_body, (db_store, item, Ok(data)), whole),
        call_ensures(handler::build_ranged_body, (item, Ok(data)), part),
    ensures
        whole is Ok <==> part is Ok,
        whole is Ok <==> item.file_blob_id is Some && (item.sub_type == ItemSubType::MultipartFile
            || item.sub_type == ItemSubType::NzbFile),
        id is Ok <==> item.file_blob_id is Some,
        id is Ok ==> Some(id->Ok_0) == item.file_blob_id,
        whole is Ok ==> whole->Ok_0 == part->Ok_0 && whole->Ok_0.1 == data,
        whole is Ok && item.sub_type == ItemSubType::MultipartFile ==> whole->Ok_0.0
            == BlobFormat::Multipart,
        whole is Ok && item.sub_type == ItemSubType::NzbFile ==> whole->Ok_0.0 == BlobFormat::Nzb,
        item.file_blob_id is None ==> id->Err_0 is NotFound && text_in(id->Err_0)
            == "item has no file blob"@,
        item.file_blob_id is None ==> whole->Err_0 is NotFound && text_in(whole->Err_0)
            == "item has no file blob"@,
        item.file_blob_id is None ==> part->Err_0 is NotFound && text_in(part->Err_0)
            == "no file blob"@,
{
}

/// What has no content is refused by what it is, and a blob that cannot be read is reported.
pub proof fn law_other_items_have_no_body(
    db_store: &DatabaseStore,
    item: &DavItem,
    data: Vec<u8>,
    e: DavServerError,
    label: &'static str,
    whole: Result<(BlobFormat, Vec<u8>), DavServerError>,
    part: Result<(BlobFormat, Vec<u8>), DavServerError>,
    lost: Result<(BlobFormat, Vec<u8>), DavServerError>,
    lost_part: Result<(BlobFormat, Vec<u8>), DavServerError>,
)
    requires
        item.file_blob_id is Some,
        call_ensures(ItemSubType::name, (item.sub_type,), label),
        call_ensures(DatabaseStore::get_body, (db_store, item, Ok(data)), whole),
        call_ensures(handler::build_ranged_body, (item, Ok(data)), part),
        call_ensures(DatabaseStore::get_body, (db_store, item, Err(e)), lost),
        call_ensures(handler::build_ranged_body, (item, Err(e)), lost_part),
    ensures
        whole is Err ==> whole->Err_0 is Other && text_in(whole->Err_0)
            == "unsupported sub_type for streaming: "@ + label@,
        part is Err ==> part->Err_0 is Other && text_in(part->Err_0)
            == "unsupported sub_type for range: "@ + label@,
        lost is Err && lost->Err_0@ == e@,
        lost_part is Err && lost_part->Err_0@ == e@,
{
}

/// A range of a file put together from parts is taken from the stream that serves the whole:
/// the parts of its metadata, in their order, with its size and its key.
pub proof fn law_ranges_are_taken_from_the_whole(
    db_store: &DatabaseStore,
    item: &DavItem,
    meta: DavMultipartFile,
    range: ByteRange,
    whole: Result<BodyStream, DavServerError>,
    part: Result<RangedBody, DavServerError>,
)
    requires
        range.start <= range.end,
        range.end - range.start < u64::MAX,
        call_ensures(DatabaseStore::multipart_body, (db_store, item, Ok(meta)), whole),
        call_ensures(handler::ranged_parts, (db_store, item, Ok(meta), range), part),
    ensures
        whole is Ok && part is Ok,
        whole->Ok_0 is Parts && part->Ok_0.stream is Parts,
        ({
            let a = whole->Ok_0;
            let b = part->Ok_0.stream;
            &&& a->parts == meta.file_parts && b->parts == meta.file_parts
            &&& a->file_size == b->file_size
            &&& a->lookahead == db_store.lookahead && b->lookahead == db_store.lookahead
            &&& item.file_size matches Some(n) ==> n >= 0 ==> a->file_size == n
            &&& item.file_size is None ==> a->file_size == 0
            &&& a->decryption is Some <==> meta.aes_params is Some
            &&& b->decryption is Some <==> meta.aes_params is Some
            &&& meta.aes_params matches Some(p) ==> {
                &&& a->decryption->0.key == p.key && b->decryption->0.key == p.key
                &&& a->decryption->0.iv == p.iv && b->decryption->0.iv == p.iv
                &&& a->decryption->0.decoded_size == b->decryption->0.decoded_size
                &&& p.decoded_size >= 0 ==> a->decryption->0.decoded_size == p.decoded_size
            }
        }),
{
}

/// A range of a file with segments of its own is read from its start, and holds as many bytes
/// as were asked for; the whole file is read from its first byte. Both streams are over its
/// segments, in their order.
pub proof fn law_ranges_of_segments_start_where_asked(
    db_store: &DatabaseStore,
    item: &DavItem,
    meta: DavNzbFile,
    range: ByteRange,
    size: u64,
    whole: Result<BodyStream, DavServerError>,
    part: Result<RangedBody, DavServerError>,
)
    requires
        range.start <= range.end,
        range.end - range.start < u64::MAX,
        call_ensures(store::raw_size, (item,), size),
        call_ensures(DatabaseStore::nzb_body, (db_store, item, Ok(meta)), whole),
        call_ensures(handler::ranged_segments, (db_store, item, Ok(meta), range), part),
    ensures
        item.file_size matches Some(n) ==> n >= 0 ==> size == n,
        item.file_size matches Some(n) ==> n < 0 ==> size == n + 0x1_0000_0000_0000_0000,
        item.file_size is None ==> size == 0,
        whole is Ok && part is Ok,
        whole->Ok_0 is Segments && part->Ok_0.stream is Segments,
        part->Ok_0.start == range.start,
        part->Ok_0.length == range.end - range.start + 1,
        ({
            let a = whole->Ok_0->Segments_0;
            let b = part->Ok_0.stream->Segments_0;
            &&& a.segment_ids == meta.segment_ids && b.segment_ids == meta.segment_ids
            &&& a.file_size == size && b.file_size == size
            &&& a.lookahead == db_store.lookahead && b.lookahead == db_store.lookahead
            &&& a.position == 0
            &&& range.start < size ==> b.position == range.start
            &&& range.start >= size ==> b.position == size
            &&& b.needs_resolve && b.inner is None && b.pending_seek is None
        }),
{
}

/// Metadata that cannot be decoded, and a stream that cannot be moved, are reported with the
/// cause.
pub proof fn law_bad_metadata_is_reported(
    db_store: &DatabaseStore,
    item: &DavItem,
    range: ByteRange,
    error: String,
    cause: &str,
    a: Result<BodyStream, DavServerError>,
    b: Result<BodyStream, DavServerError>,
    c: Result<RangedBody, DavServerError>,
    d: Result<RangedBody, DavServerError>,
    s: DavServerError,
)
    requires
        range.start <= range.end,
        range.end - range.start < u64::MAX,
        call_ensures(DatabaseStore::multipart_body, (db_store, item, Err(error)), a),
        call_ensures(DatabaseStore::nzb_body, (db_store, item, Err(error)), b),
        call_ensures(handler::ranged_parts, (db_store, item, Err(error), range), c),
        call_ensures(handler::ranged_segments, (db_store, item, Err(error), range), d),
        call_ensures(handler::seek_error, (cause,), s),
    ensures
        a is Err && a->Err_0 is Other && text_in(a->Err_0)
            == "failed to deserialize multipart blob: "@ + error@,
        b is Err && b->Err_0 is Other && text_in(b->Err_0) == "failed to deserialize nzb blob: "@
            + error@,
        c is Err && c->Err_0 is Other && text_in(c->Err_0) == "deserialize error: "@ + error@,
        d is Err && d->Err_0 is Other && text_in(d->Err_0) == "deserialize error: "@ + error@,
        s is Other && text_in(s) == "seek error: "@ + cause@,
{
}

/// The web interface sends the asset that is asked for, or the start page where there is
/// none, as the type of its name and as it is.
pub proof fn law_assets_are_sent_as_they_are(
    path: String,
    known: bool,
    chosen: String,
    name: &str,
    data: Vec<u8>,
    kind: String,
    sent: Response,
    lost: Response,
)
    requires
        call_ensures(frontend::frontend_handler, (path, known), chosen),
        call_ensures(store::mime_from_name, (name,), kind),
        call_ensures(frontend::serve_file, (name, Some(data)), sent),
        call_ensures(frontend::serve_file, (name, None), lost),
    ensures
        known ==> chosen@ == path@,
        !known ==> chosen@ == "index.html"@,
        sent.status == 200,
        sent.content_type matches Some(c) && c@ == kind@,
        !name@.contains('.') ==> kind@ == "application/octet-stream"@,
        sent.content_length is None && sent.content_range is None && sent.etag is None,
        !sent.accept_ranges && sent.allow is None && sent.dav is None,
        sent.payload == Payload::Data(data),
        tells(lost, 404, "Not found"@),
{
}

} // verus!
