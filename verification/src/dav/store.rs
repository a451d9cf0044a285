//! `DatabaseStore`: what the filesystem shows of the rows of the database, and which
//! writes its operations take.
//!
//! Each operation gets what the queries that it rests on returned, and decides from that.
//! A query that an operation does not need for a path has no part in the result.

use vstd::prelude::*;

use crate::db;
use crate::db::{DbWrite, PlannedWrite};
use crate::error::{DavErrorView, DavServerError};
use crate::ids;
use crate::models::{
    AesParams, DavItem, DavMultipartFile, DavNzbFile, FilePart, ItemSubType, ItemType, QueueItem,
    Timestamp,
};
use crate::num;
use crate::nzb;
use crate::nzb::NzbJobView;
use crate::sab_api::handler;
use crate::sab_api::handler::NewJob;
use crate::stream::seekable_segment_stream::SeekableSegmentStream;
use crate::text;

verus! {

/// The media type that `mime_guess` gives a file of this name.
pub uninterp spec fn mime_of_name(name: Seq<char>) -> Seq<char>;

/// `mime_guess::from_path` followed by `first_or_octet_stream`: the media type that the
/// crate's table lists first for the extension of the name. A name without a dot has no
/// extension, and then the type is `application/octet-stream`. What the table lists is
/// left unsaid.
#[verifier::external_body]
fn guess_mime(name: &str) -> (r: String)
    ensures
        r@ == mime_of_name(name@),
        !name@.contains('.') ==> r@ == "application/octet-stream"@,
{
    mime_guess::from_path(name).first_or_octet_stream().to_string()
}

/// Guesses a media type from a file name.
pub fn mime_from_name(name: &str) -> (r: String)
    ensures
        r@ == mime_of_name(name@),
        !name@.contains('.') ==> r@ == "application/octet-stream"@,
{
    guess_mime(name)
}

/// A node of the WebDAV filesystem.
#[derive(Clone, Debug, PartialEq, Eq)]
pub struct DavNode {
    pub item: DavItem,
    pub is_collection: bool,
    pub content_type: String,
    pub etag: String,
}

/// The entity tag of an item: its identifier in double quotes.
pub open spec fn etag_of(id: u128) -> Seq<char> {
    seq!['"'] + ids::uuid_text(id) + seq!['"']
}

impl DavNode {
    /// Whether the node shows this item, with `guess` as the media type of a file.
    pub open spec fn shows_as(self, item: DavItem, guess: Seq<char>) -> bool {
        &&& self.item == item
        &&& self.is_collection == (item.item_type == ItemType::Directory)
        &&& self.content_type@ == if item.item_type == ItemType::Directory {
            "httpd/unix-directory"@
        } else {
            guess
        }
        &&& self.etag@ == etag_of(item.id)
    }

    /// Whether the node shows this item.
    pub open spec fn shows(self, item: DavItem) -> bool {
        self.shows_as(item, mime_of_name(item.name@))
    }

    /// The node of an item, with `guess` as the media type of a file.
    pub fn with_type(item: DavItem, guess: String) -> (r: Self)
        ensures
            r.shows_as(item, guess@),
    {
        let is_collection = matches!(item.item_type, ItemType::Directory);
        let content_type = if is_collection {
            "httpd/unix-directory".to_string()
        } else {
            guess
        };
        let quote = text::of_char('"');
        let id = ids::uuid_to_string(item.id);
        let etag = text::join3(quote.as_str(), id.as_str(), quote.as_str());
        DavNode { item, is_collection, content_type, etag }
    }

    /// The node of an item.
    pub fn from_item(item: DavItem) -> (r: Self)
        ensures
            r.shows(item),
    {
        let guess = mime_from_name(item.name.as_str());
        DavNode::with_type(item, guess)
    }
}

/// The parent's path and the name of a path: the name is what follows the last slash once
/// the slashes at the end are cut off, and the parent's path is what comes before the name.
pub open spec fn parent_and_name(path: Seq<char>) -> (Seq<char>, Seq<char>) {
    let trimmed = text::trimmed_end(path, '/');
    let pos = text::last_position(trimmed, '/');
    if pos < 0 {
        ("/"@, trimmed)
    } else {
        (path.subrange(0, pos + 1), trimmed.subrange(pos + 1, trimmed.len() as int))
    }
}

/// Splits a path into the parent's path and the name.
///
/// `/content/movies/file.mkv` gives `/content/movies/` and `file.mkv`;
/// `/content/movies/` gives `/content/` and `movies`.
pub fn split_path(path: &str) -> (r: (String, String))
    ensures
        (r.0@, r.1@) == parent_and_name(path@),
{
    let whole = text::to_chars(path);
    let cut = text::trim_end(path, '/');
    let trimmed = text::to_chars(cut.as_str());
    proof {
        text::lemma_trimmed_end(path@, '/');
    }
    let mut i: usize = trimmed.len();
    while i > 0 && trimmed[i - 1] != '/'
        invariant
            i <= trimmed@.len(),
            forall|k: int| i <= k < trimmed@.len() ==> trimmed@[k] != '/',
        decreases i,
    {
        i -= 1;
    }
    proof {
        text::lemma_last_position_unique(trimmed@, '/', i - 1);
    }
    if i == 0 {
        ("/".to_string(), cut)
    } else {
        (
            text::from_chars(whole.as_slice(), 0, i),
            text::from_chars(trimmed.as_slice(), i, trimmed.len()),
        )
    }
}

/// Whether a text ends in a slash.
pub open spec fn has_slash_end(path: Seq<char>) -> bool {
    path.len() > 0 && path.last() == '/'
}

/// The path with a slash at its end.
pub open spec fn with_slash(path: Seq<char>) -> Seq<char> {
    if has_slash_end(path) {
        path
    } else {
        path + "/"@
    }
}

/// The path with a slash at its end, under which directories are stored.
pub fn directory_path(path: &str) -> (r: String)
    ensures
        r@ == with_slash(path@),
{
    if text::ends_in(path, '/') {
        path.to_string()
    } else {
        text::join(path, "/")
    }
}

/// The name of the queued NZB file that a path directly below `/nzbs/` stands for.
pub open spec fn queued_name(path: Seq<char>) -> Option<Seq<char>> {
    let name = path.subrange("/nzbs/"@.len() as int, path.len() as int);
    if text::starts_with(path, "/nzbs/"@) && name.len() > 0 && !name.contains('/') {
        Some(name)
    } else {
        None
    }
}

/// The name of the queued NZB file that a path stands for. Only then is the queue read.
pub fn virtual_name(path: &str) -> (r: Option<String>)
    ensures
        queued_name(path@) is Some <==> r is Some,
        r matches Some(n) ==> queued_name(path@) == Some(n@),
{
    match text::strip_prefix(path, "/nzbs/") {
        Some(name) => {
            if text::to_chars(name.as_str()).len() > 0 && !text::contains(name.as_str(), '/') {
                Some(name)
            } else {
                None
            }
        },
        None => None,
    }
}

/// The identifier that a path directly below `/.ids/` stands for.
pub open spec fn id_named(path: Seq<char>) -> Option<u128> {
    if text::starts_with(path, "/.ids/"@) && !has_slash_end(path) {
        ids::uuid_parsed(path.subrange("/.ids/"@.len() as int, path.len() as int))
    } else {
        None
    }
}

/// The identifier that a path stands for. Only then is the item with it looked up.
pub fn named_id(path: &str) -> (r: Option<u128>)
    ensures
        r == id_named(path@),
{
    if text::ends_in(path, '/') {
        return None;
    }
    match text::strip_prefix(path, "/.ids/") {
        Some(name) => ids::parse_uuid(name.as_str()),
        None => None,
    }
}

/// The first queue item with this file name.
pub open spec fn first_queued(queue: Seq<QueueItem>, name: Seq<char>) -> Option<QueueItem>
    decreases queue.len(),
{
    if queue.len() == 0 {
        None
    } else if queue[0].file_name@ == name {
        Some(queue[0])
    } else {
        first_queued(queue.drop_first(), name)
    }
}

/// Finds the first queue item with this file name.
fn find_queued(queue: &Vec<QueueItem>, name: &str) -> (r: Option<QueueItem>)
    ensures
        r == first_queued(queue@, name@),
{
    let mut i: usize = 0;
    assert(queue@.subrange(0, queue@.len() as int) =~= queue@);
    while i < queue.len()
        invariant
            i <= queue@.len(),
            first_queued(queue@, name@) == first_queued(
                queue@.subrange(i as int, queue@.len() as int),
                name@,
            ),
        decreases queue@.len() - i,
    {
        let ghost rest = queue@.subrange(i as int, queue@.len() as int);
        assert(rest[0] == queue@[i as int]);
        if text::same(queue[i].file_name.as_str(), name) {
            return Some(queue[i].duplicate());
        }
        assert(rest.drop_first() =~= queue@.subrange(i + 1, queue@.len() as int));
        i += 1;
    }
    None
}

/// Whether an item is the one that stands for a queue item below `/nzbs/`.
pub open spec fn stands_for(item: DavItem, qi: QueueItem) -> bool {
    &&& item.id == qi.id
    &&& item.id_prefix@ == "q"@
    &&& item.created_at == qi.created_at
    &&& item.parent_id is None
    &&& item.name@ == qi.file_name@
    &&& item.file_size == Some(qi.nzb_file_size)
    &&& item.item_type == ItemType::UsenetFile
    &&& item.sub_type == ItemSubType::NzbFile
    &&& item.path@ == "/nzbs/"@ + qi.file_name@
    &&& item.release_date is None
    &&& item.last_health_check is None
    &&& item.next_health_check is None
    &&& item.history_item_id is None
    &&& item.file_blob_id is None
    &&& item.nzb_blob_id == Some(qi.id)
}

/// Builds the item that stands for a queue item below `/nzbs/`.
pub fn queue_item_to_dav_item(qi: &QueueItem) -> (r: DavItem)
    ensures
        stands_for(r, *qi),
{
    DavItem {
        id: qi.id,
        id_prefix: "q".to_string(),
        created_at: qi.created_at,
        parent_id: None,
        name: qi.file_name.clone(),
        file_size: Some(qi.nzb_file_size),
        item_type: ItemType::UsenetFile,
        sub_type: ItemSubType::NzbFile,
        path: text::join("/nzbs/", qi.file_name.as_str()),
        release_date: None,
        last_health_check: None,
        next_health_check: None,
        history_item_id: None,
        file_blob_id: None,
        nzb_blob_id: Some(qi.id),
    }
}

/// What a path leads to.
pub enum Resolution {
    /// A query failed.
    Failed(DavErrorView),
    Stored(DavItem),
    Queued(QueueItem),
    Nothing,
}

/// What a query for the queue gave.
pub open spec fn rows(queue: Result<Vec<QueueItem>, DavServerError>) -> Result<
    Seq<QueueItem>,
    DavErrorView,
> {
    match queue {
        Ok(q) => Ok(q@),
        Err(e) => Err(e@),
    }
}

/// What the queue has for a path.
pub open spec fn resolve_queued(
    path: Seq<char>,
    queue: Result<Seq<QueueItem>, DavErrorView>,
) -> Resolution {
    match queued_name(path) {
        None => Resolution::Nothing,
        Some(name) => match queue {
            Err(e) => Resolution::Failed(e),
            Ok(q) => match first_queued(q, name) {
                Some(qi) => Resolution::Queued(qi),
                None => Resolution::Nothing,
            },
        },
    }
}

/// What a path leads to at which nothing is stored: the item with the identifier that it
/// names, or else the queued NZB file.
pub open spec fn resolve_virtual(
    path: Seq<char>,
    by_id: Result<Option<DavItem>, DavServerError>,
    queue: Result<Seq<QueueItem>, DavErrorView>,
) -> Resolution {
    match id_named(path) {
        None => resolve_queued(path, queue),
        Some(_) => match by_id {
            Err(e) => Resolution::Failed(e@),
            Ok(Some(item)) => Resolution::Stored(item),
            Ok(None) => Resolution::Nothing,
        },
    }
}

/// What a path leads to: the item with that path, else the one with a slash after it, else
/// the item that it names by its identifier or the queued NZB file.
pub open spec fn resolve(
    path: Seq<char>,
    exact: Result<Option<DavItem>, DavServerError>,
    slashed: Result<Option<DavItem>, DavServerError>,
    by_id: Result<Option<DavItem>, DavServerError>,
    queue: Result<Seq<QueueItem>, DavErrorView>,
) -> Resolution {
    match exact {
        Err(e) => Resolution::Failed(e@),
        Ok(Some(item)) => Resolution::Stored(item),
        Ok(None) => if has_slash_end(path) {
            resolve_virtual(path, by_id, queue)
        } else {
            match slashed {
                Err(e) => Resolution::Failed(e@),
                Ok(Some(item)) => Resolution::Stored(item),
                Ok(None) => resolve_virtual(path, by_id, queue),
            }
        },
    }
}

/// Whether a node is shown for a queue item.
pub open spec fn shows_queued(node: DavNode, qi: QueueItem) -> bool {
    stands_for(node.item, qi) && node.shows(node.item)
}

/// The writes that clear the destination of a move, a copy or an upload.
pub open spec fn clearing(existing: Option<DavItem>) -> Seq<PlannedWrite> {
    match existing {
        Some(item) => seq![PlannedWrite { write: DbWrite::DeleteItem(item.id), required: true }],
        None => Seq::empty(),
    }
}

/// What a move replaces at its destination: the item that is there, unless that is the one
/// that is moved.
pub open spec fn other_than(existing: Option<DavItem>, source: DavItem) -> Option<DavItem> {
    match existing {
        Some(x) if x.id == source.id => None,
        _ => existing,
    }
}

/// The writes that drop the blob of the item that an upload replaces.
pub open spec fn blob_clearing(existing: Option<DavItem>) -> Seq<PlannedWrite> {
    match existing {
        Some(item) => match item.nzb_blob_id {
            Some(blob) => seq![
                PlannedWrite { write: DbWrite::DeleteNzbBlob(blob), required: false },
            ],
            None => Seq::empty(),
        },
        None => Seq::empty(),
    }
}

/// Whether an item was made at a path: under this parent, with the name of the path.
pub open spec fn is_made_at(
    item: DavItem,
    path: Seq<char>,
    parent: u128,
    id: u128,
    now: Timestamp,
) -> bool {
    &&& item.id == id
    &&& item.id_prefix@ == seq![text::first_or(parent_and_name(path).1, '_')]
    &&& item.created_at == now
    &&& item.parent_id == Some(parent)
    &&& item.name@ == parent_and_name(path).1
    &&& item.path@ == path
}

/// Whether an item is the one for an NZB file of `size` bytes uploaded to a path.
pub open spec fn is_uploaded(
    item: DavItem,
    path: Seq<char>,
    parent: u128,
    id: u128,
    blob: u128,
    now: Timestamp,
    size: nat,
) -> bool {
    &&& is_made_at(item, path, parent, id, now)
    &&& item.file_size == Some(num::as_signed(size as u64) as i64)
    &&& item.item_type == ItemType::UsenetFile
    &&& item.sub_type == ItemSubType::NzbFile
    &&& item.release_date is None
    &&& item.last_health_check is None
    &&& item.next_health_check is None
    &&& item.history_item_id is None
    &&& item.file_blob_id is None
    &&& item.nzb_blob_id == Some(blob)
}

/// Whether an item is the one for a new directory.
pub open spec fn is_new_directory(
    item: DavItem,
    path: Seq<char>,
    parent: u128,
    id: u128,
    now: Timestamp,
) -> bool {
    &&& is_made_at(item, path, parent, id, now)
    &&& item.file_size is None
    &&& item.item_type == ItemType::Directory
    &&& item.sub_type == ItemSubType::Directory
    &&& item.is_bare()
}

/// Whether an item is a copy of `source` made at a path.
pub open spec fn is_copy_of(
    item: DavItem,
    source: DavItem,
    path: Seq<char>,
    parent: u128,
    id: u128,
    now: Timestamp,
) -> bool {
    &&& is_made_at(item, path, parent, id, now)
    &&& item == (DavItem {
        id: item.id,
        id_prefix: item.id_prefix,
        created_at: item.created_at,
        parent_id: item.parent_id,
        name: item.name,
        path: item.path,
        ..source
    })
}

/// What an upload puts in the queue: the NZB file, where the path lies directly below
/// `/nzbs/` and the file can be parsed.
pub open spec fn queued_upload(path: Seq<char>, data: Seq<u8>) -> Option<NzbJobView> {
    match nzb::nzb_read(data) {
        Ok(job) if queued_name(path) is Some => Some(job),
        _ => None,
    }
}

/// The identifiers of what an upload makes: the item, its blob, and the queue item.
#[derive(Clone, Copy, Debug, PartialEq, Eq, Structural)]
pub struct UploadIds {
    pub item: u128,
    pub blob: u128,
    pub queue: u128,
}

/// Whether writes store an NZB file at a path, in place of `existing`, and put it in the
/// queue where it belongs there.
pub open spec fn is_storing(
    w: Seq<PlannedWrite>,
    item: DavItem,
    path: Seq<char>,
    data: Seq<u8>,
    existing: Option<DavItem>,
    ids: UploadIds,
    job_name: Seq<char>,
    now: Timestamp,
) -> bool {
    let n = (blob_clearing(existing) + clearing(existing)).len() as int;
    &&& w.len() >= n + 2
    &&& w.take(n) == blob_clearing(existing) + clearing(existing)
    &&& w[n].required
    &&& w[n].write matches DbWrite::PutNzbBlob { id, data: stored }
    &&& id == ids.blob
    &&& stored@ == data
    &&& w[n + 1] == (PlannedWrite { write: DbWrite::InsertItem(item), required: true })
    &&& match queued_upload(path, data) {
        None => w.len() == n + 2,
        Some(job) => {
            let queuing = w.skip(n + 2);
            &&& queuing.len() == 2
            &&& queuing[1].write matches DbWrite::InsertQueueItem(q)
            &&& handler::is_queuing(queuing, ids.queue, data, q)
            &&& handler::is_new_item(
                q,
                ids.queue,
                now,
                parent_and_name(path).1,
                job_name,
                data.len(),
                nzb::total_bytes(job.files),
                Seq::empty(),
                0,
            )
        },
    }
}

/// The name of a path directly below `/nzbs/` is what follows that.
pub proof fn lemma_queued_name(path: Seq<char>)
    requires
        queued_name(path) is Some,
    ensures
        queued_name(path) == Some(parent_and_name(path).1),
        parent_and_name(path).0 == "/nzbs/"@,
{
    reveal_strlit("/nzbs/");
    let name = queued_name(path)->0;
    let prefix = "/nzbs/"@;
    assert(path =~= prefix + name) by {
        assert(path.subrange(0, 6) == prefix);
        assert(path =~= path.subrange(0, 6) + path.subrange(6, path.len() as int));
    }
    assert(path.last() == name.last());
    assert(name.contains(name[name.len() - 1]));
    assert(text::trimmed_end(path, '/') == path);
    assert(path[5] == prefix[5]);
    assert forall|k: int| 5 < k < path.len() implies path[k] != '/' by {
        assert(path[k] == name[k - 6]);
        assert(name.contains(name[k - 6]));
    }
    text::lemma_last_position_unique(path, '/', 5);
    assert(path.subrange(0, 6) =~= prefix);
    assert(path.subrange(6, path.len() as int) =~= name);
}

/// The parent and the item that an upload replaces, or why it is refused.
pub open spec fn upload_target(
    path: Seq<char>,
    parent: Result<Option<DavItem>, DavServerError>,
    existing: Result<Option<DavItem>, DavServerError>,
) -> Result<(DavItem, Option<DavItem>), DavErrorView> {
    match parent {
        Err(e) => Err(e@),
        Ok(None) => Err(
            DavErrorView::Conflict("parent not found: "@ + parent_and_name(path).0),
        ),
        Ok(Some(p)) => match existing {
            Err(e) => Err(e@),
            Ok(x) => Ok((p, x)),
        },
    }
}

/// The parent of a new directory, or why it is refused.
pub open spec fn directory_target(
    path: Seq<char>,
    parent: Result<Option<DavItem>, DavServerError>,
    existing: Result<Option<DavItem>, DavServerError>,
) -> Result<DavItem, DavErrorView> {
    match parent {
        Err(e) => Err(e@),
        Ok(None) => Err(
            DavErrorView::Conflict("parent not found: "@ + parent_and_name(path).0),
        ),
        Ok(Some(p)) => if p.item_type != ItemType::Directory {
            Err(DavErrorView::Conflict("parent is not a collection"@))
        } else {
            match existing {
                Err(e) => Err(e@),
                Ok(Some(_)) => Err(DavErrorView::MethodNotAllowed("collection already exists"@)),
                Ok(None) => Ok(p),
            }
        },
    }
}

/// The source, the new parent and the item that a move or a copy replaces, or why it is
/// refused.
pub open spec fn transfer_target(
    from: Seq<char>,
    to: Seq<char>,
    source: Result<Option<DavItem>, DavServerError>,
    parent: Result<Option<DavItem>, DavServerError>,
    existing: Result<Option<DavItem>, DavServerError>,
) -> Result<(DavItem, DavItem, Option<DavItem>), DavErrorView> {
    match source {
        Err(e) => Err(e@),
        Ok(None) => Err(DavErrorView::NotFound(from)),
        Ok(Some(s)) => match parent {
            Err(e) => Err(e@),
            Ok(None) => Err(
                DavErrorView::Conflict("dest parent not found: "@ + parent_and_name(to).0),
            ),
            Ok(Some(p)) => match existing {
                Err(e) => Err(e@),
                Ok(x) => Ok((s, p, x)),
            },
        },
    }
}

/// What a deletion removes, or why it is refused.
pub open spec fn deletion(
    path: Seq<char>,
    exact: Result<Option<DavItem>, DavServerError>,
    queue: Result<Seq<QueueItem>, DavErrorView>,
) -> Result<Seq<PlannedWrite>, DavErrorView> {
    match exact {
        Err(e) => Err(e@),
        Ok(Some(item)) => Ok(
            seq![PlannedWrite { write: DbWrite::DeleteItem(item.id), required: true }],
        ),
        Ok(None) => match resolve_queued(path, queue) {
            Resolution::Failed(e) => Err(e),
            Resolution::Queued(qi) => Ok(
                seq![
                    PlannedWrite { write: DbWrite::DeleteNzbBlob(qi.id), required: false },
                    PlannedWrite { write: DbWrite::DeleteQueueItem(qi.id), required: true },
                ],
            ),
            _ => Err(DavErrorView::NotFound(path)),
        },
    }
}

/// Which metadata a file blob holds.
#[derive(Clone, Copy, Debug, PartialEq, Eq, Structural)]
pub enum BlobFormat {
    Multipart,
    Nzb,
}

/// How a file is decrypted while it is streamed.
#[derive(Clone, Debug, PartialEq, Eq)]
pub struct Decryption {
    pub key: Vec<u8>,
    pub iv: Vec<u8>,
    pub decoded_size: u64,
}

/// The stream that a file is served from.
#[derive(Clone, Debug, PartialEq, Eq)]
pub enum BodyStream {
    /// The parts of the volumes, one after the other.
    Parts {
        parts: Vec<FilePart>,
        file_size: u64,
        lookahead: usize,
        decryption: Option<Decryption>,
    },
    /// The segments, one after the other.
    Segments(SeekableSegmentStream),
}

/// The size of a file as it is stored, 0 where there is none.
pub open spec fn stored_size(item: DavItem) -> int {
    match item.file_size {
        Some(n) => num::as_unsigned(n),
        None => 0,
    }
}

/// The size of a file as it is stored, 0 where there is none.
pub fn raw_size(item: &DavItem) -> (r: u64)
    ensures
        r == stored_size(*item),
{
    match item.file_size {
        Some(n) => num::to_unsigned(n),
        None => 0,
    }
}

/// The blob with the metadata of a file.
pub fn body_blob(item: &DavItem) -> (r: Result<u128, DavServerError>)
    ensures
        match item.file_blob_id {
            Some(id) => r == Ok::<u128, DavServerError>(id),
            None => r is Err && r->Err_0@ == DavErrorView::NotFound("item has no file blob"@),
        },
{
    match item.file_blob_id {
        Some(id) => Ok(id),
        None => Err(DavServerError::NotFound("item has no file blob".to_string())),
    }
}

/// The WebDAV storage: rows of the database for metadata, Usenet for file content.
#[derive(Clone, Copy, Debug, PartialEq, Eq, Structural)]
pub struct DatabaseStore {
    pub lookahead: usize,
}

impl DatabaseStore {
    /// A store whose streams fetch `lookahead` segments ahead.
    pub fn new(lookahead: usize) -> (r: Self)
        ensures
            r.lookahead == lookahead,
    {
        DatabaseStore { lookahead }
    }

    /// How many segments are fetched ahead.
    pub fn lookahead(&self) -> (r: usize)
        ensures
            r == self.lookahead,
    {
        self.lookahead
    }

    /// Resolves a WebDAV path to a node. `by_id` is the item with the identifier that the
    /// path names, where it names one.
    pub fn get_node(
        &self,
        path: &str,
        exact: Result<Option<DavItem>, DavServerError>,
        slashed: Result<Option<DavItem>, DavServerError>,
        by_id: Result<Option<DavItem>, DavServerError>,
        queue: Result<Vec<QueueItem>, DavServerError>,
    ) -> (r: Result<Option<DavNode>, DavServerError>)
        ensures
            match resolve(path@, exact, slashed, by_id, rows(queue)) {
                Resolution::Failed(v) => r is Err && r->Err_0@ == v,
                Resolution::Stored(item) => r matches Ok(Some(n)) && n.shows(item),
                Resolution::Queued(qi) => r matches Ok(Some(n)) && shows_queued(n, qi),
                Resolution::Nothing => r matches Ok(None),
            },
    {
        match exact {
            Err(e) => {
                return Err(e);
            },
            Ok(Some(item)) => {
                return Ok(Some(DavNode::from_item(item)));
            },
            Ok(None) => {},
        }
        if !text::ends_in(path, '/') {
            match slashed {
                Err(e) => {
                    return Err(e);
                },
                Ok(Some(item)) => {
                    return Ok(Some(DavNode::from_item(item)));
                },
                Ok(None) => {},
            }
        }
        if named_id(path).is_some() {
            return match by_id {
                Err(e) => Err(e),
                Ok(Some(item)) => Ok(Some(DavNode::from_item(item))),
                Ok(None) => Ok(None),
            };
        }
        if let Some(name) = virtual_name(path) {
            match queue {
                Err(e) => {
                    return Err(e);
                },
                Ok(q) => {
                    if let Some(qi) = find_queued(&q, name.as_str()) {
                        let item = queue_item_to_dav_item(&qi);
                        return Ok(Some(DavNode::from_item(item)));
                    }
                },
            }
        }
        Ok(None)
    }

    /// Whether a listing of this path also shows the queued NZB files.
    pub fn lists_queue(&self, path: &str) -> (r: bool)
        ensures
            r == (text::trimmed_end(with_slash(path@), '/') == "/nzbs"@),
    {
        let normalized = directory_path(path);
        let check = text::trim_end(normalized.as_str(), '/');
        text::same(check.as_str(), "/nzbs")
    }

    /// Lists the immediate children of a collection, in the order of the query. Below
    /// `/nzbs/` the queued NZB files follow.
    pub fn list_children(
        &self,
        path: &str,
        children: Result<Vec<DavItem>, DavServerError>,
        queue: Result<Vec<QueueItem>, DavServerError>,
    ) -> (r: Result<Vec<DavNode>, DavServerError>)
        ensures
            match children {
                Err(e) => r is Err && r->Err_0@ == e@,
                Ok(items) => if text::trimmed_end(with_slash(path@), '/') == "/nzbs"@ {
                    match queue {
                        Err(e) => r is Err && r->Err_0@ == e@,
                        Ok(q) => {
                            &&& r matches Ok(nodes)
                            &&& nodes@.len() == items@.len() + q@.len()
                            &&& forall|i: int|
                                0 <= i < items@.len() ==> (#[trigger] nodes@[i]).shows(items@[i])
                            &&& forall|i: int|
                                0 <= i < q@.len() ==> shows_queued(
                                    #[trigger] nodes@[items@.len() + i],
                                    q@[i],
                                )
                        },
                    }
                } else {
                    &&& r matches Ok(nodes)
                    &&& nodes@.len() == items@.len()
                    &&& forall|i: int|
                        0 <= i < items@.len() ==> (#[trigger] nodes@[i]).shows(items@[i])
                },
            },
    {
        let items = match children {
            Ok(items) => items,
            Err(e) => {
                return Err(e);
            },
        };
        let mut nodes: Vec<DavNode> = Vec::new();
        let mut i: usize = 0;
        while i < items.len()
            invariant
                i <= items@.len(),
                nodes@.len() == i,
                forall|k: int| 0 <= k < i ==> (#[trigger] nodes@[k]).shows(items@[k]),
            decreases items@.len() - i,
        {
            nodes.push(DavNode::from_item(items[i].duplicate()));
            i += 1;
        }
        if self.lists_queue(path) {
            let q = match queue {
                Ok(q) => q,
                Err(e) => {
                    return Err(e);
                },
            };
            let mut k: usize = 0;
            while k < q.len()
                invariant
                    k <= q@.len(),
                    nodes@.len() == items@.len() + k,
                    forall|j: int| 0 <= j < items@.len() ==> (#[trigger] nodes@[j]).shows(items@[j]),
                    forall|j: int|
                        0 <= j < k ==> shows_queued(#[trigger] nodes@[items@.len() + j], q@[j]),
                decreases q@.len() - k,
            {
                let item = queue_item_to_dav_item(&q[k]);
                nodes.push(DavNode::from_item(item));
                k += 1;
            }
        }
        Ok(nodes)
    }

    /// Which metadata a file blob is decoded as, once it has been read.
    pub fn get_body(&self, item: &DavItem, blob: Result<Vec<u8>, DavServerError>) -> (r: Result<
        (BlobFormat, Vec<u8>),
        DavServerError,
    >)
        ensures
            match (item.file_blob_id, blob) {
                (None, _) => r is Err && r->Err_0@ == DavErrorView::NotFound(
                    "item has no file blob"@,
                ),
                (Some(_), Err(e)) => r is Err && r->Err_0@ == e@,
                (Some(_), Ok(data)) => match item.sub_type {
                    ItemSubType::MultipartFile => r == Ok::<(BlobFormat, Vec<u8>), DavServerError>(
                        (BlobFormat::Multipart, data),
                    ),
                    ItemSubType::NzbFile => r == Ok::<(BlobFormat, Vec<u8>), DavServerError>(
                        (BlobFormat::Nzb, data),
                    ),
                    other => r is Err && r->Err_0@ == DavErrorView::Other(
                        "unsupported sub_type for streaming: "@ + other.label(),
                    ),
                },
            },
    {
        if let Err(e) = body_blob(item) {
            return Err(e);
        }
        let data = match blob {
            Ok(data) => data,
            Err(e) => {
                return Err(e);
            },
        };
        match item.sub_type {
            ItemSubType::MultipartFile => Ok((BlobFormat::Multipart, data)),
            ItemSubType::NzbFile => Ok((BlobFormat::Nzb, data)),
            other => Err(
                DavServerError::Other(
                    text::join("unsupported sub_type for streaming: ", other.name()),
                ),
            ),
        }
    }

    /// The stream of a file that is put together from parts, once its metadata has been
    /// decoded.
    pub fn multipart_body(&self, item: &DavItem, meta: Result<DavMultipartFile, String>) -> (r:
        Result<BodyStream, DavServerError>)
        ensures
            match meta {
                Err(e) => r is Err && r->Err_0@ == DavErrorView::Other(
                    "failed to deserialize multipart blob: "@ + e@,
                ),
                Ok(m) => {
                    &&& r matches Ok(BodyStream::Parts { parts, file_size, lookahead, decryption })
                    &&& parts == m.file_parts
                    &&& file_size == stored_size(*item)
                    &&& lookahead == self.lookahead
                    &&& match m.aes_params {
                        Some(a) => decryption matches Some(d) && d.key == a.key && d.iv == a.iv
                            && d.decoded_size == num::as_unsigned(a.decoded_size),
                        None => decryption is None,
                    }
                },
            },
    {
        let m = match meta {
            Ok(m) => m,
            Err(e) => {
                return Err(
                    DavServerError::Other(
                        text::join("failed to deserialize multipart blob: ", e.as_str()),
                    ),
                );
            },
        };
        let decryption = match m.aes_params {
            Some(AesParams { key, iv, decoded_size }) => Some(
                Decryption { key, iv, decoded_size: num::to_unsigned(decoded_size) },
            ),
            None => None,
        };
        Ok(
            BodyStream::Parts {
                parts: m.file_parts,
                file_size: raw_size(item),
                lookahead: self.lookahead,
                decryption,
            },
        )
    }

    /// The stream of a file with segments of its own, once its metadata has been decoded.
    pub fn nzb_body(&self, item: &DavItem, meta: Result<DavNzbFile, String>) -> (r: Result<
        BodyStream,
        DavServerError,
    >)
        ensures
            match meta {
                Err(e) => r is Err && r->Err_0@ == DavErrorView::Other(
                    "failed to deserialize nzb blob: "@ + e@,
                ),
                Ok(m) => {
                    &&& r matches Ok(BodyStream::Segments(s))
                    &&& s.wf()
                    &&& s.is_fresh(m.segment_ids, stored_size(*item) as u64, self.lookahead)
                },
            },
    {
        match meta {
            Ok(m) => Ok(
                BodyStream::Segments(
                    SeekableSegmentStream::new(m.segment_ids, raw_size(item), self.lookahead),
                ),
            ),
            Err(e) => Err(
                DavServerError::Other(text::join("failed to deserialize nzb blob: ", e.as_str())),
            ),
        }
    }

    /// Stores an NZB file under a path, in place of what is there. One that is uploaded
    /// directly below `/nzbs/` is also added to the queue, where it can be parsed.
    ///
    /// `job_name` is the name of the job that the NZB file's name gives.
    pub fn put_nzb(
        &self,
        path: &str,
        data: Vec<u8>,
        parent: Result<Option<DavItem>, DavServerError>,
        existing: Result<Option<DavItem>, DavServerError>,
        ids: UploadIds,
        job_name: String,
        now: Timestamp,
    ) -> (r: Result<Vec<PlannedWrite>, DavServerError>)
        ensures
            match upload_target(path@, parent, existing) {
                Err(v) => r is Err && r->Err_0@ == v,
                Ok((p, x)) => {
                    let n = (blob_clearing(x) + clearing(x)).len() as int;
                    &&& r matches Ok(w)
                    &&& w@.len() >= n + 2
                    &&& w@[n + 1].write matches DbWrite::InsertItem(item)
                    &&& is_uploaded(item, path@, p.id, ids.item, ids.blob, now, data@.len())
                    &&& is_storing(w@, item, path@, data@, x, ids, job_name@, now)
                },
            },
    {
        let (parent_path, name) = split_path(path);
        let parent = match parent {
            Err(e) => {
                return Err(e);
            },
            Ok(None) => {
                return Err(
                    DavServerError::Conflict(
                        text::join("parent not found: ", parent_path.as_str()),
                    ),
                );
            },
            Ok(Some(p)) => p,
        };
        let ghost replaced = existing->Ok_0;
        let mut writes: Vec<PlannedWrite> = Vec::new();
        match existing {
            Err(e) => {
                return Err(e);
            },
            Ok(Some(old_item)) => {
                if let Some(blob) = old_item.nzb_blob_id {
                    writes.push(db::best_effort(DbWrite::DeleteNzbBlob(blob)));
                }
                writes.push(db::required(DbWrite::DeleteItem(old_item.id)));
            },
            Ok(None) => {},
        }
        assert(writes@ =~= blob_clearing(replaced) + clearing(replaced));
        let ghost cleared = writes@;
        let size: i64 = num::to_signed(data.len() as u64);
        let prefix = text::first_char(name.as_str(), '_');
        let item = DavItem {
            id: ids.item,
            id_prefix: text::of_char(prefix),
            created_at: now,
            parent_id: Some(parent.id),
            name: name.clone(),
            file_size: Some(size),
            item_type: ItemType::UsenetFile,
            sub_type: ItemSubType::NzbFile,
            path: path.to_string(),
            release_date: None,
            last_health_check: None,
            next_health_check: None,
            history_item_id: None,
            file_blob_id: None,
            nzb_blob_id: Some(ids.blob),
        };
        let queued = match virtual_name(path) {
            Some(_) => match nzb::read_nzb(job_name.as_str(), data.as_slice()) {
                Ok(job) => {
                    let mut copy: Vec<u8> = Vec::new();
                    copy.extend_from_slice(data.as_slice());
                    assert(copy@ =~= data@);
                    let new_job = NewJob {
                        filename: name,
                        data: copy,
                        category: String::new(),
                        priority: 0,
                        password: None,
                    };
                    handler::enqueue_parsed(Ok(job), new_job, false, job_name, ids.queue, now).ok()
                },
                Err(_) => None,
            },
            None => None,
        };
        writes.push(db::required(DbWrite::PutNzbBlob { id: ids.blob, data }));
        writes.push(db::required(DbWrite::InsertItem(item)));
        let ghost stored = writes@;
        if let Some(queuing) = queued {
            let ghost added = queuing@;
            let mut rest = queuing;
            writes.append(&mut rest);
            assert(writes@ =~= stored + added);
            assert(writes@.skip(stored.len() as int) =~= added);
        }
        assert(writes@.take(cleared.len() as int) =~= cleared);
        Ok(writes)
    }

    /// Deletes an item with all that lies below it. Where the path stands for a queued NZB
    /// file, deletes the queue item and its blob.
    pub fn delete(
        &self,
        path: &str,
        exact: Result<Option<DavItem>, DavServerError>,
        queue: Result<Vec<QueueItem>, DavServerError>,
    ) -> (r: Result<Vec<PlannedWrite>, DavServerError>)
        ensures
            match deletion(path@, exact, rows(queue)) {
                Err(v) => r is Err && r->Err_0@ == v,
                Ok(w) => r is Ok && r->Ok_0@ == w,
            },
    {
        let mut writes: Vec<PlannedWrite> = Vec::new();
        match exact {
            Err(e) => {
                return Err(e);
            },
            Ok(Some(item)) => {
                writes.push(db::required(DbWrite::DeleteItem(item.id)));
                return Ok(writes);
            },
            Ok(None) => {},
        }
        if let Some(name) = virtual_name(path) {
            match queue {
                Err(e) => {
                    return Err(e);
                },
                Ok(q) => {
                    if let Some(qi) = find_queued(&q, name.as_str()) {
                        writes.push(db::best_effort(DbWrite::DeleteNzbBlob(qi.id)));
                        writes.push(db::required(DbWrite::DeleteQueueItem(qi.id)));
                        return Ok(writes);
                    }
                },
            }
        }
        Err(DavServerError::NotFound(path.to_string()))
    }

    /// Creates a directory.
    pub fn mkcol(
        &self,
        path: &str,
        parent: Result<Option<DavItem>, DavServerError>,
        existing: Result<Option<DavItem>, DavServerError>,
        id: u128,
        now: Timestamp,
    ) -> (r: Result<Vec<PlannedWrite>, DavServerError>)
        ensures
            match directory_target(path@, parent, existing) {
                Err(v) => r is Err && r->Err_0@ == v,
                Ok(p) => {
                    &&& r matches Ok(w)
                    &&& w@.len() == 1
                    &&& w@[0] matches PlannedWrite {
                        write: DbWrite::InsertItem(item),
                        required: true,
                    }
                    &&& is_new_directory(item, path@, p.id, id, now)
                },
            },
    {
        let (parent_path, name) = split_path(path);
        let parent = match parent {
            Err(e) => {
                return Err(e);
            },
            Ok(None) => {
                return Err(
                    DavServerError::Conflict(
                        text::join("parent not found: ", parent_path.as_str()),
                    ),
                );
            },
            Ok(Some(p)) => p,
        };
        if !matches!(parent.item_type, ItemType::Directory) {
            return Err(DavServerError::Conflict("parent is not a collection".to_string()));
        }
        match existing {
            Err(e) => {
                return Err(e);
            },
            Ok(Some(_)) => {
                return Err(
                    DavServerError::MethodNotAllowed("collection already exists".to_string()),
                );
            },
            Ok(None) => {},
        }
        let prefix = text::first_char(name.as_str(), '_');
        let item = DavItem {
            id,
            id_prefix: text::of_char(prefix),
            created_at: now,
            parent_id: Some(parent.id),
            name,
            file_size: None,
            item_type: ItemType::Directory,
            sub_type: ItemSubType::Directory,
            path: path.to_string(),
            release_date: None,
            last_health_check: None,
            next_health_check: None,
            history_item_id: None,
            file_blob_id: None,
            nzb_blob_id: None,
        };
        let mut writes: Vec<PlannedWrite> = Vec::new();
        writes.push(db::required(DbWrite::InsertItem(item)));
        Ok(writes)
    }

    /// Moves an item to a path, in place of what else is there.
    pub fn move_item(
        &self,
        from: &str,
        to: &str,
        source: Result<Option<DavItem>, DavServerError>,
        parent: Result<Option<DavItem>, DavServerError>,
        existing: Result<Option<DavItem>, DavServerError>,
    ) -> (r: Result<Vec<PlannedWrite>, DavServerError>)
        ensures
            match transfer_target(from@, to@, source, parent, existing) {
                Err(v) => r is Err && r->Err_0@ == v,
                Ok((s, p, x)) => {
                    &&& r matches Ok(w)
                    &&& w@.len() > 0
                    &&& w@ == clearing(other_than(x, s)) + seq![w@.last()]
                    &&& w@.last() matches PlannedWrite {
                        write: DbWrite::RenameItem { id, name, path, parent_id },
                        required: true,
                    }
                    &&& id == s.id
                    &&& name@ == parent_and_name(to@).1
                    &&& path@ == to@
                    &&& parent_id == p.id
                },
            },
    {
        let item = match source {
            Err(e) => {
                return Err(e);
            },
            Ok(None) => {
                return Err(DavServerError::NotFound(from.to_string()));
            },
            Ok(Some(item)) => item,
        };
        let (parent_path, name) = split_path(to);
        let new_parent = match parent {
            Err(e) => {
                return Err(e);
            },
            Ok(None) => {
                return Err(
                    DavServerError::Conflict(
                        text::join("dest parent not found: ", parent_path.as_str()),
                    ),
                );
            },
            Ok(Some(p)) => p,
        };
        let mut writes: Vec<PlannedWrite> = Vec::new();
        match existing {
            Err(e) => {
                return Err(e);
            },
            Ok(Some(old_item)) => {
                if old_item.id != item.id {
                    writes.push(db::required(DbWrite::DeleteItem(old_item.id)));
                }
            },
            Ok(None) => {},
        }
        writes.push(
            db::required(
                DbWrite::RenameItem {
                    id: item.id,
                    name,
                    path: to.to_string(),
                    parent_id: new_parent.id,
                },
            ),
        );
        Ok(writes)
    }

    /// Copies an item to another path, in place of what is there. The copy refers to the
    /// same blobs.
    pub fn copy_item(
        &self,
        from: &str,
        to: &str,
        source: Result<Option<DavItem>, DavServerError>,
        parent: Result<Option<DavItem>, DavServerError>,
        existing: Result<Option<DavItem>, DavServerError>,
        id: u128,
        now: Timestamp,
    ) -> (r: Result<Vec<PlannedWrite>, DavServerError>)
        ensures
            match transfer_target(from@, to@, source, parent, existing) {
                Err(v) => r is Err && r->Err_0@ == v,
                Ok((s, p, x)) => {
                    &&& r matches Ok(w)
                    &&& w@.len() > 0
                    &&& w@ == clearing(x) + seq![w@.last()]
                    &&& w@.last() matches PlannedWrite {
                        write: DbWrite::InsertItem(item),
                        required: true,
                    }
                    &&& is_copy_of(item, s, to@, p.id, id, now)
                },
            },
    {
        let source = match source {
            Err(e) => {
                return Err(e);
            },
            Ok(None) => {
                return Err(DavServerError::NotFound(from.to_string()));
            },
            Ok(Some(item)) => item,
        };
        let (parent_path, name) = split_path(to);
        let new_parent = match parent {
            Err(e) => {
                return Err(e);
            },
            Ok(None) => {
                return Err(
                    DavServerError::Conflict(
                        text::join("dest parent not found: ", parent_path.as_str()),
                    ),
                );
            },
            Ok(Some(p)) => p,
        };
        let mut writes: Vec<PlannedWrite> = Vec::new();
        match existing {
            Err(e) => {
                return Err(e);
            },
            Ok(Some(old_item)) => {
                writes.push(db::required(DbWrite::DeleteItem(old_item.id)));
            },
            Ok(None) => {},
        }
        let prefix = text::first_char(name.as_str(), '_');
        let copy = DavItem {
            id,
            id_prefix: text::of_char(prefix),
            created_at: now,
            parent_id: Some(new_parent.id),
            name,
            path: to.to_string(),
            ..source
        };
        writes.push(db::required(DbWrite::InsertItem(copy)));
        Ok(writes)
    }
}

} // verus!
