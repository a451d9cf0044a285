//! The rows of the database and the metadata of stored files.

use vstd::prelude::*;

verus! {

/// A point in time: seconds since 1970-01-01 00:00:00 UTC, and nanoseconds.
#[derive(Clone, Copy, Debug, PartialEq, Eq, Structural)]
pub struct Timestamp {
    pub secs: i64,
    pub nanos: u32,
}

/// Whether a node of the filesystem holds other nodes or content.
#[derive(Clone, Copy, Debug, PartialEq, Eq, Structural)]
pub enum ItemType {
    Directory,
    UsenetFile,
}

/// What a node of the filesystem is for.
#[derive(Clone, Copy, Debug, PartialEq, Eq, Structural)]
pub enum ItemSubType {
    Directory,
    WebdavRoot,
    NzbsRoot,
    ContentRoot,
    SymlinkRoot,
    IdsRoot,
    NzbFile,
    MultipartFile,
    ReadmeFile,
}

impl ItemSubType {
    /// The name of the variant.
    pub open spec fn label(self) -> Seq<char> {
        match self {
            ItemSubType::Directory => "Directory"@,
            ItemSubType::WebdavRoot => "WebdavRoot"@,
            ItemSubType::NzbsRoot => "NzbsRoot"@,
            ItemSubType::ContentRoot => "ContentRoot"@,
            ItemSubType::SymlinkRoot => "SymlinkRoot"@,
            ItemSubType::IdsRoot => "IdsRoot"@,
            ItemSubType::NzbFile => "NzbFile"@,
            ItemSubType::MultipartFile => "MultipartFile"@,
            ItemSubType::ReadmeFile => "ReadmeFile"@,
        }
    }

    /// The name of the variant, as `Debug` prints it.
    pub fn name(self) -> (r: &'static str)
        ensures
            r@ == self.label(),
    {
        match self {
            ItemSubType::Directory => "Directory",
            ItemSubType::WebdavRoot => "WebdavRoot",
            ItemSubType::NzbsRoot => "NzbsRoot",
            ItemSubType::ContentRoot => "ContentRoot",
            ItemSubType::SymlinkRoot => "SymlinkRoot",
            ItemSubType::IdsRoot => "IdsRoot",
            ItemSubType::NzbFile => "NzbFile",
            ItemSubType::MultipartFile => "MultipartFile",
            ItemSubType::ReadmeFile => "ReadmeFile",
        }
    }
}

/// A node of the virtual filesystem.
#[derive(Clone, Debug, PartialEq, Eq)]
pub struct DavItem {
    pub id: u128,
    pub id_prefix: String,
    pub created_at: Timestamp,
    pub parent_id: Option<u128>,
    pub name: String,
    pub file_size: Option<i64>,
    pub item_type: ItemType,
    pub sub_type: ItemSubType,
    pub path: String,
    pub release_date: Option<Timestamp>,
    pub last_health_check: Option<Timestamp>,
    pub next_health_check: Option<Timestamp>,
    pub history_item_id: Option<u128>,
    pub file_blob_id: Option<u128>,
    pub nzb_blob_id: Option<u128>,
}

impl DavItem {
    /// The same item once more.
    pub fn duplicate(&self) -> (r: Self)
        ensures
            r == *self,
    {
        DavItem {
            id: self.id,
            id_prefix: self.id_prefix.clone(),
            created_at: self.created_at,
            parent_id: self.parent_id,
            name: self.name.clone(),
            file_size: self.file_size,
            item_type: self.item_type,
            sub_type: self.sub_type,
            path: self.path.clone(),
            release_date: self.release_date,
            last_health_check: self.last_health_check,
            next_health_check: self.next_health_check,
            history_item_id: self.history_item_id,
            file_blob_id: self.file_blob_id,
            nzb_blob_id: self.nzb_blob_id,
        }
    }

    /// An item that was never checked, released or linked to a job or a blob.
    pub open spec fn is_bare(self) -> bool {
        &&& self.release_date is None
        &&& self.last_health_check is None
        &&& self.next_health_check is None
        &&& self.history_item_id is None
        &&& self.file_blob_id is None
        &&& self.nzb_blob_id is None
    }
}

/// An NZB file that waits to be processed.
#[derive(Clone, Debug, PartialEq, Eq)]
pub struct QueueItem {
    pub id: u128,
    pub created_at: Timestamp,
    pub file_name: String,
    pub job_name: String,
    pub nzb_file_size: i64,
    pub total_segment_bytes: i64,
    pub category: String,
    pub priority: i32,
    pub post_processing: i32,
    pub pause_until: Option<Timestamp>,
}

impl QueueItem {
    /// The same item once more.
    pub fn duplicate(&self) -> (r: Self)
        ensures
            r == *self,
    {
        QueueItem {
            id: self.id,
            created_at: self.created_at,
            file_name: self.file_name.clone(),
            job_name: self.job_name.clone(),
            nzb_file_size: self.nzb_file_size,
            total_segment_bytes: self.total_segment_bytes,
            category: self.category.clone(),
            priority: self.priority,
            post_processing: self.post_processing,
            pause_until: self.pause_until,
        }
    }
}

/// How the processing of an NZB file ended.
#[derive(Clone, Copy, Debug, PartialEq, Eq, Structural)]
pub enum DownloadStatus {
    Completed,
    Failed,
}

/// An NZB file that was processed.
#[derive(Clone, Debug, PartialEq, Eq)]
pub struct HistoryItem {
    pub id: u128,
    pub created_at: Timestamp,
    pub file_name: String,
    pub job_name: String,
    pub category: String,
    pub download_status: DownloadStatus,
    pub total_segment_bytes: i64,
    pub download_time_seconds: i64,
    pub fail_message: Option<String>,
    pub download_dir_id: Option<u128>,
    pub nzb_blob_id: Option<u128>,
}

/// A range of bytes, its end excluded.
#[derive(Clone, Copy, Debug, PartialEq, Eq, Structural)]
pub struct LongRange {
    pub start: i64,
    pub end: i64,
}

/// A stretch of a file that lies in the segments of one volume.
#[derive(Clone, Debug, PartialEq, Eq)]
pub struct FilePart {
    pub segment_ids: Vec<String>,
    pub segment_id_byte_range: LongRange,
    pub file_part_byte_range: LongRange,
}

/// How an encrypted file is decrypted.
#[derive(Clone, Debug, PartialEq, Eq)]
pub struct AesParams {
    pub key: Vec<u8>,
    pub iv: Vec<u8>,
    pub decoded_size: i64,
}

/// A file that is put together from parts of one or more volumes.
#[derive(Clone, Debug, PartialEq, Eq)]
pub struct DavMultipartFile {
    pub file_parts: Vec<FilePart>,
    pub aes_params: Option<AesParams>,
}

/// A file whose segments are its own.
#[derive(Clone, Debug, PartialEq, Eq)]
pub struct DavNzbFile {
    pub segment_ids: Vec<String>,
}

/// Every purpose has a name of its own.
pub proof fn law_purposes_have_names_of_their_own(
    a: ItemSubType,
    b: ItemSubType,
    x: &'static str,
    y: &'static str,
)
    requires
        call_ensures(ItemSubType::name, (a,), x),
        call_ensures(ItemSubType::name, (b,), y),
    ensures
        x@ == y@ <==> a == b,
        a is Directory ==> x@ == "Directory"@,
        a is WebdavRoot ==> x@ == "WebdavRoot"@,
        a is NzbsRoot ==> x@ == "NzbsRoot"@,
        a is ContentRoot ==> x@ == "ContentRoot"@,
        a is SymlinkRoot ==> x@ == "SymlinkRoot"@,
        a is IdsRoot ==> x@ == "IdsRoot"@,
        a is NzbFile ==> x@ == "NzbFile"@,
        a is MultipartFile ==> x@ == "MultipartFile"@,
        a is ReadmeFile ==> x@ == "ReadmeFile"@,
{
    reveal_strlit("Directory");
    reveal_strlit("WebdavRoot");
    reveal_strlit("NzbsRoot");
    reveal_strlit("ContentRoot");
    reveal_strlit("SymlinkRoot");
    reveal_strlit("IdsRoot");
    reveal_strlit("NzbFile");
    reveal_strlit("MultipartFile");
    reveal_strlit("ReadmeFile");
    // The length, the first and the second letter tell the names apart.
    assert("Directory"@.len() == 9 && "Directory"@[0] == 'D');
    assert("WebdavRoot"@.len() == 10 && "WebdavRoot"@[0] == 'W');
    assert("NzbsRoot"@.len() == 8 && "NzbsRoot"@[0] == 'N');
    assert("ContentRoot"@.len() == 11 && "ContentRoot"@[0] == 'C');
    assert("SymlinkRoot"@.len() == 11 && "SymlinkRoot"@[0] == 'S');
    assert("IdsRoot"@.len() == 7 && "IdsRoot"@[0] == 'I');
    assert("NzbFile"@.len() == 7 && "NzbFile"@[0] == 'N');
    assert("MultipartFile"@.len() == 13 && "MultipartFile"@[0] == 'M');
    assert("ReadmeFile"@.len() == 10 && "ReadmeFile"@[0] == 'R');
}

/// A copy of a row is equal to it.
pub proof fn law_duplicates_are_equal(item: &DavItem, q: &QueueItem, a: DavItem, b: QueueItem)
    requires
        call_ensures(DavItem::duplicate, (item,), a),
        call_ensures(QueueItem::duplicate, (q,), b),
    ensures
        a == *item,
        b == *q,
{
}

} // verus!
