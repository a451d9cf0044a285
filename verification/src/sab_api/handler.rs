//! The modes of the API: what a request asks for, and how it is answered.

use vstd::prelude::*;

use crate::db;
use crate::db::{DbWrite, PlannedWrite, Tables, WriteFailure};
use crate::ids;
use crate::models::{DavItem, DownloadStatus, HistoryItem, QueueItem, Timestamp};
use crate::num;
use crate::nzb;
use crate::nzb::NzbJob;
use crate::queue_manager;
use crate::queue_manager::QueueStatus;
use crate::sab_api::models::{
    AddFileResponse, ApiReply, CategoriesResponse, ConfigCategory, ConfigData, ConfigMisc,
    FullStatus, HistoryData, HistorySlot, QueueData, QueueSlot, SimpleResponse, VersionResponse,
};
use crate::text;

verus! {

broadcast use vstd::std_specs::hash::group_hash_axioms;

/// The parameters of a request.
#[derive(Clone, Debug, PartialEq, Eq)]
pub struct ApiParams {
    pub mode: String,
    pub apikey: Option<String>,
    pub output: Option<String>,
    pub name: Option<String>,
    pub value: Option<String>,
    pub cat: Option<String>,
    pub priority: Option<i32>,
    pub password: Option<String>,
    pub start: Option<i64>,
    pub limit: Option<i64>,
    /// Sent along with deletions, and of no effect.
    pub del_files: Option<i32>,
    /// The name under which an NZB file from a URL is stored.
    pub nzbname: Option<String>,
    /// The identifiers that a history request is about, separated by commas.
    pub nzo_ids: Option<String>,
}

/// The modes that need more than the parameters to be answered.
#[derive(Clone, Copy, Debug, PartialEq, Eq, Structural)]
pub enum Mode {
    AddFile,
    AddUrl,
    Queue,
    History,
    Retry,
}

/// What a request leads to.
#[derive(Clone, Debug, PartialEq, Eq)]
pub enum Dispatch {
    Handle(Mode),
    Reply(ApiReply),
}

/// The version that the server reports: one that clients take for a SABnzbd.
pub const SAB_VERSION: &'static str = "4.0.0";

/// Whether a status is that of a server at rest.
pub open spec fn is_resting(s: FullStatus) -> bool {
    &&& s.version@ == SAB_VERSION@
    &&& !s.paused
    &&& s.pause_int@ == "0"@
    &&& s.kbpersec@ == "0.00"@
    &&& s.speed@ == "0 "@
    &&& s.mbleft@ == "0.00"@
    &&& s.mb@ == "0.00"@
    &&& s.noofslots == 0
    &&& s.noofslots_total == 0
    &&& s.timeleft@ == "0:00:00"@
    &&& s.eta@ == "unknown"@
    &&& s.diskspace1@ == "999.99"@
    &&& s.diskspacetotal1@ == "999.99"@
    &&& s.diskspace2@ == "999.99"@
    &&& s.diskspacetotal2@ == "999.99"@
    &&& s.have_warnings@ == "0"@
    &&& s.loadavg@ == ""@
    &&& s.cache_art@ == "0"@
    &&& s.cache_size@ == "0 B"@
    &&& s.finishaction is None
    &&& s.quota@ == ""@
    &&& s.left_quota@ == ""@
    &&& s.speedlimit@ == ""@
    &&& s.servers@.len() == 0
}

/// The status of the server.
pub fn full_status() -> (r: FullStatus)
    ensures
        is_resting(r),
{
    FullStatus {
        version: SAB_VERSION.to_string(),
        paused: false,
        pause_int: "0".to_string(),
        kbpersec: "0.00".to_string(),
        speed: "0 ".to_string(),
        mbleft: "0.00".to_string(),
        mb: "0.00".to_string(),
        noofslots: 0,
        noofslots_total: 0,
        timeleft: "0:00:00".to_string(),
        eta: "unknown".to_string(),
        diskspace1: "999.99".to_string(),
        diskspacetotal1: "999.99".to_string(),
        diskspace2: "999.99".to_string(),
        diskspacetotal2: "999.99".to_string(),
        have_warnings: "0".to_string(),
        loadavg: "".to_string(),
        cache_art: "0".to_string(),
        cache_size: "0 B".to_string(),
        finishaction: None,
        quota: "".to_string(),
        left_quota: "".to_string(),
        speedlimit: "".to_string(),
        servers: Vec::new(),
    }
}

/// Whether the general part of a configuration is the one that the server reports.
pub open spec fn is_default_misc(m: ConfigMisc) -> bool {
    &&& m.port@ == "8080"@
    &&& m.host@ == "0.0.0.0"@
    &&& m.api_key@ == ""@
    &&& m.complete_dir@ == "/content"@
    &&& m.dirscan_dir@ == ""@
    &&& m.download_dir@ == "/content"@
    &&& m.history_retention@ == "all"@
    &&& m.pause_on_post_processing == 0
    &&& m.pre_check == 0
    &&& m.quota_size@ == ""@
    &&& m.quota_day@ == ""@
    &&& m.quota_period@ == "m"@
    &&& m.refresh_rate == 1
    &&& m.bandwidth_max@ == ""@
    &&& m.cache_limit@ == "512M"@
}

/// Whether an entry is the one for a category.
pub open spec fn is_category(c: ConfigCategory, name: Seq<char>) -> bool {
    c.name@ == name && c.order == 0 && c.dir@ == ""@ && c.newzbin@ == ""@ && c.priority == 0
}

/// The configuration, with one entry for each category.
pub fn config_data(categories: &Vec<String>) -> (r: ConfigData)
    ensures
        is_default_misc(r.misc),
        r.categories@.len() == categories@.len(),
        forall|i: int|
            0 <= i < categories@.len() ==> is_category(
                #[trigger] r.categories@[i],
                categories@[i]@,
            ),
        r.servers@.len() == 0,
{
    let mut entries: Vec<ConfigCategory> = Vec::new();
    let mut i: usize = 0;
    while i < categories.len()
        invariant
            i <= categories@.len(),
            entries@.len() == i,
            forall|k: int|
                0 <= k < i ==> is_category(#[trigger] entries@[k], categories@[k]@),
        decreases categories@.len() - i,
    {
        entries.push(
            ConfigCategory {
                name: categories[i].clone(),
                order: 0,
                dir: "".to_string(),
                newzbin: "".to_string(),
                priority: 0,
            },
        );
        i += 1;
    }
    let misc = ConfigMisc {
        port: "8080".to_string(),
        host: "0.0.0.0".to_string(),
        api_key: "".to_string(),
        complete_dir: "/content".to_string(),
        dirscan_dir: "".to_string(),
        download_dir: "/content".to_string(),
        history_retention: "all".to_string(),
        pause_on_post_processing: 0,
        pre_check: 0,
        quota_size: "".to_string(),
        quota_day: "".to_string(),
        quota_period: "m".to_string(),
        refresh_rate: 1,
        bandwidth_max: "".to_string(),
        cache_limit: "512M".to_string(),
    };
    ConfigData { misc, categories: entries, servers: Vec::new() }
}

/// The mode that a request names, where it needs more than the parameters.
pub open spec fn handled_mode(mode: Seq<char>) -> Option<Mode> {
    if mode == "addfile"@ {
        Some(Mode::AddFile)
    } else if mode == "addurl"@ {
        Some(Mode::AddUrl)
    } else if mode == "queue"@ {
        Some(Mode::Queue)
    } else if mode == "history"@ {
        Some(Mode::History)
    } else if mode == "retry"@ {
        Some(Mode::Retry)
    } else {
        None
    }
}

/// Dispatches a request by its mode.
pub fn sab_api(params: &ApiParams, categories: Vec<String>) -> (r: Dispatch)
    ensures
        ({
            let mode = params.mode@;
            match handled_mode(mode) {
                Some(m) => r == Dispatch::Handle(m),
                None => if mode == "version"@ {
                    r matches Dispatch::Reply(ApiReply::Version(v)) && v.version@ == SAB_VERSION@
                } else if mode == "status"@ || mode == "fullstatus"@ {
                    r matches Dispatch::Reply(ApiReply::Status(s)) && is_resting(s)
                } else if mode == "get_config"@ {
                    &&& r matches Dispatch::Reply(ApiReply::Config(c))
                    &&& is_default_misc(c.misc)
                    &&& c.categories@.len() == categories@.len()
                    &&& forall|i: int|
                        0 <= i < categories@.len() ==> is_category(
                            #[trigger] c.categories@[i],
                            categories@[i]@,
                        )
                    &&& c.servers@.len() == 0
                } else if mode == "get_cats"@ {
                    r matches Dispatch::Reply(ApiReply::Categories(c)) && c.categories
                        == categories
                } else {
                    r matches Dispatch::Reply(a) && a.refuses("unknown mode: "@ + mode)
                },
            }
        }),
{
    let mode = params.mode.as_str();
    if text::same(mode, "addfile") {
        Dispatch::Handle(Mode::AddFile)
    } else if text::same(mode, "addurl") {
        Dispatch::Handle(Mode::AddUrl)
    } else if text::same(mode, "queue") {
        Dispatch::Handle(Mode::Queue)
    } else if text::same(mode, "history") {
        Dispatch::Handle(Mode::History)
    } else if text::same(mode, "retry") {
        Dispatch::Handle(Mode::Retry)
    } else if text::same(mode, "version") {
        Dispatch::Reply(
            ApiReply::Version(VersionResponse { version: SAB_VERSION.to_string() }),
        )
    } else if text::same(mode, "status") || text::same(mode, "fullstatus") {
        Dispatch::Reply(ApiReply::Status(full_status()))
    } else if text::same(mode, "get_config") {
        Dispatch::Reply(ApiReply::Config(config_data(&categories)))
    } else if text::same(mode, "get_cats") {
        Dispatch::Reply(ApiReply::Categories(CategoriesResponse { categories }))
    } else {
        Dispatch::Reply(ApiReply::Simple(SimpleResponse::failed("unknown mode: ", mode)))
    }
}

/// An NZB file that is to be queued.
#[derive(Clone, Debug, PartialEq, Eq)]
pub struct NewJob {
    pub filename: String,
    pub data: Vec<u8>,
    pub category: String,
    pub priority: i32,
    pub password: Option<String>,
}

/// Whether a job was made from the parameters of a request.
pub open spec fn is_job(
    job: NewJob,
    params: ApiParams,
    filename: Seq<char>,
    data: Vec<u8>,
) -> bool {
    &&& job.filename@ == filename
    &&& job.data == data
    &&& job.category@ == (match params.cat {
        Some(c) => c@,
        None => Seq::empty(),
    })
    &&& job.priority == (match params.priority {
        Some(p) => p,
        None => 0,
    })
    &&& job.password == params.password
}

/// Makes a job from the parameters of a request.
fn new_job(params: ApiParams, filename: String, data: Vec<u8>) -> (r: NewJob)
    ensures
        is_job(r, params, filename@, data),
{
    let category = match params.cat {
        Some(c) => c,
        None => String::new(),
    };
    let priority: i32 = match params.priority {
        Some(p) => p,
        None => 0,
    };
    NewJob { filename, data, category, priority, password: params.password }
}

/// Whether a field of an upload holds the NZB file. The first such field is taken.
pub fn is_nzb_field(name: &str) -> (r: bool)
    ensures
        r == (name@ == "nzbfile"@ || name@ == "name"@),
{
    text::same(name, "nzbfile") || text::same(name, "name")
}

/// What came with a request to add a file.
#[derive(Clone, Debug, PartialEq, Eq)]
pub enum Upload {
    /// The body has no parts.
    NoMultipart,
    /// The field with the file could not be read.
    ReadFailed(String),
    /// No field holds a file.
    NoFile,
    File { filename: Option<String>, data: Vec<u8> },
}

/// Adds an NZB file from an upload.
pub fn handle_addfile(params: ApiParams, upload: Upload) -> (r: Result<NewJob, ApiReply>)
    ensures
        match upload {
            Upload::NoMultipart => r matches Err(a) && a.refuses(
                "multipart body required for addfile"@,
            ),
            Upload::ReadFailed(e) => r matches Err(a) && a.refuses(
                "failed to read upload: "@ + e@,
            ),
            Upload::NoFile => r matches Err(a) && a.refuses("no NZB file found in upload"@),
            Upload::File { filename, data } => r matches Ok(job) && is_job(
                job,
                params,
                match filename {
                    Some(f) => f@,
                    None => "unknown.nzb"@,
                },
                data,
            ),
        },
{
    match upload {
        Upload::NoMultipart => Err(
            ApiReply::Simple(SimpleResponse::refused("multipart body required for addfile")),
        ),
        Upload::ReadFailed(e) => Err(
            ApiReply::Simple(SimpleResponse::failed("failed to read upload: ", e.as_str())),
        ),
        Upload::NoFile => Err(
            ApiReply::Simple(SimpleResponse::refused("no NZB file found in upload")),
        ),
        Upload::File { filename, data } => {
            let filename = match filename {
                Some(f) => f,
                None => "unknown.nzb".to_string(),
            };
            Ok(new_job(params, filename, data))
        },
    }
}

/// The URL that a request to add one names, as `name` or else as `value`.
pub fn addurl_target(params: &ApiParams) -> (r: Result<String, ApiReply>)
    ensures
        match (params.name, params.value) {
            (Some(url), _) => r == Ok::<String, ApiReply>(url),
            (None, Some(url)) => r == Ok::<String, ApiReply>(url),
            (None, None) => r is Err && r->Err_0.refuses(
                "URL is required (pass as 'name' or 'value' parameter)"@,
            ),
        },
{
    match &params.name {
        Some(url) => Ok(url.clone()),
        None => match &params.value {
            Some(url) => Ok(url.clone()),
            None => Err(
                ApiReply::Simple(
                    SimpleResponse::refused(
                        "URL is required (pass as 'name' or 'value' parameter)",
                    ),
                ),
            ),
        },
    }
}

/// What came of fetching a URL.
#[derive(Clone, Debug, PartialEq, Eq)]
pub enum Fetch {
    /// The request could not be sent.
    SendFailed(String),
    /// The server answered with another status than success.
    Refused(String),
    /// The answer could not be read.
    ReadFailed(String),
    Body(Vec<u8>),
}

/// The name under which an NZB file from a URL is stored: the one that the request gives,
/// else the last part of the URL where that ends in `.nzb`, else a fixed one.
pub open spec fn url_filename(nzbname: Option<String>, url: Seq<char>) -> Seq<char> {
    let base = text::after_last(url, '/');
    if nzbname is Some && nzbname->0@.len() > 0 {
        nzbname->0@
    } else if text::ends_with(base, ".nzb"@) {
        base
    } else {
        "download.nzb"@
    }
}

/// Adds an NZB file from a URL.
pub fn handle_addurl(params: ApiParams, url: &str, fetch: Fetch) -> (r: Result<NewJob, ApiReply>)
    ensures
        match fetch {
            Fetch::SendFailed(e) => r matches Err(a) && a.refuses("failed to fetch URL: "@ + e@),
            Fetch::Refused(status) => r matches Err(a) && a.refuses(
                "HTTP "@ + status@ + " fetching URL"@,
            ),
            Fetch::ReadFailed(e) => r matches Err(a) && a.refuses(
                "failed to read response: "@ + e@,
            ),
            Fetch::Body(data) => r matches Ok(job) && is_job(
                job,
                params,
                url_filename(params.nzbname, url@),
                data,
            ),
        },
{
    match fetch {
        Fetch::SendFailed(e) => Err(
            ApiReply::Simple(SimpleResponse::failed("failed to fetch URL: ", e.as_str())),
        ),
        Fetch::Refused(status) => {
            let message = text::join("HTTP ", status.as_str());
            Err(ApiReply::Simple(SimpleResponse::failed(message.as_str(), " fetching URL")))
        },
        Fetch::ReadFailed(e) => Err(
            ApiReply::Simple(SimpleResponse::failed("failed to read response: ", e.as_str())),
        ),
        Fetch::Body(data) => {
            let base = text::cut_to_last(url, '/');
            let filename = match &params.nzbname {
                Some(n) if text::to_chars(n.as_str()).len() > 0 => n.clone(),
                _ => {
                    if text::has_suffix(base.as_str(), ".nzb") {
                        base
                    } else {
                        "download.nzb".to_string()
                    }
                },
            };
            Ok(new_job(params, filename, data))
        },
    }
}

/// The name under which an NZB file is stored: with the password in it, unless there is
/// none or the name has one already.
pub open spec fn name_with_password(
    filename: Seq<char>,
    password: Option<String>,
    has_password: bool,
) -> Seq<char> {
    if password is Some && password->0@.len() > 0 && !has_password {
        text::without_suffixes(filename, ".nzb"@) + " {{"@ + password->0@ + "}}.nzb"@
    } else {
        filename
    }
}

/// The name under which an NZB file is stored. `has_password` says whether the name that it
/// came with holds a password.
pub fn stored_filename(filename: &str, password: &Option<String>, has_password: bool) -> (r: String)
    ensures
        r@ == name_with_password(filename@, *password, has_password),
{
    match password {
        Some(pw) if text::to_chars(pw.as_str()).len() > 0 && !has_password => {
            let base = text::strip_suffixes(filename, ".nzb");
            let mut r = text::join3(base.as_str(), " {{", pw.as_str());
            r.append("}}.nzb");
            r
        },
        _ => filename.to_string(),
    }
}

/// Whether writes store an NZB file and queue it.
pub open spec fn is_queuing(
    w: Seq<PlannedWrite>,
    id: u128,
    data: Seq<u8>,
    item: QueueItem,
) -> bool {
    &&& w.len() >= 2
    &&& w[0].required
    &&& w[0].write matches DbWrite::PutNzbBlob { id: blob, data: bytes }
    &&& blob == id
    &&& bytes@ == data
    &&& w[1] == (PlannedWrite { write: DbWrite::InsertQueueItem(item), required: true })
    &&& item.id == id
}

/// Whether a queue item is the one for a new job.
pub open spec fn is_new_item(
    item: QueueItem,
    id: u128,
    now: Timestamp,
    file_name: Seq<char>,
    job_name: Seq<char>,
    size: nat,
    total: nat,
    category: Seq<char>,
    priority: i32,
) -> bool {
    &&& item.id == id
    &&& item.created_at == now
    &&& item.file_name@ == file_name
    &&& item.job_name@ == job_name
    &&& item.nzb_file_size == num::as_signed(size as u64)
    &&& item.total_segment_bytes == num::as_signed((total % 0x1_0000_0000_0000_0000) as u64)
    &&& item.category@ == category
    &&& item.priority == priority
    &&& item.post_processing == -1
    &&& item.pause_until is None
}

/// Queues a job whose NZB file was parsed.
///
/// `has_password` says whether the name that it came with holds a password, and `job_name` is
/// the name of the job.
pub fn enqueue_parsed(
    parsed: Result<NzbJob, String>,
    job: NewJob,
    has_password: bool,
    job_name: String,
    id: u128,
    now: Timestamp,
) -> (r: Result<Vec<PlannedWrite>, ApiReply>)
    ensures
        match parsed {
            Err(e) => r matches Err(a) && a.refuses("invalid NZB: "@ + e@),
            Ok(files) => {
                &&& r matches Ok(w)
                &&& w@.len() == 2
                &&& w@[1].write matches DbWrite::InsertQueueItem(item)
                &&& is_queuing(w@, id, job.data@, item)
                &&& is_new_item(
                    item,
                    id,
                    now,
                    name_with_password(job.filename@, job.password, has_password),
                    job_name@,
                    job.data@.len(),
                    nzb::total_bytes(files@.files),
                    job.category@,
                    job.priority,
                )
            },
        },
{
    let files = match parsed {
        Ok(files) => files,
        Err(e) => {
            return Err(ApiReply::Simple(SimpleResponse::failed("invalid NZB: ", e.as_str())));
        },
    };
    let total: u64 = nzb::sum_bytes(&files);
    let item = QueueItem {
        id,
        created_at: now,
        file_name: stored_filename(job.filename.as_str(), &job.password, has_password),
        job_name,
        nzb_file_size: num::to_signed(job.data.len() as u64),
        total_segment_bytes: num::to_signed(total),
        category: job.category,
        priority: job.priority,
        post_processing: -1,
        pause_until: None,
    };
    let mut writes: Vec<PlannedWrite> = Vec::new();
    writes.push(db::required(DbWrite::PutNzbBlob { id, data: job.data }));
    writes.push(db::required(DbWrite::InsertQueueItem(item)));
    Ok(writes)
}

/// Parses the NZB file of a job and queues the job.
pub fn enqueue_nzb(
    job: NewJob,
    has_password: bool,
    job_name: String,
    id: u128,
    now: Timestamp,
) -> (r: Result<Vec<PlannedWrite>, ApiReply>)
    requires
        nzb::is_readable(job.data@),
    ensures
        match nzb::nzb_parsed(job.data@) {
            Err(e) => r matches Err(a) && a.refuses("invalid NZB: "@ + e),
            Ok(parsed) => {
                &&& r matches Ok(w)
                &&& w@.len() == 2
                &&& w@[1].write matches DbWrite::InsertQueueItem(item)
                &&& is_queuing(w@, id, job.data@, item)
                &&& is_new_item(
                    item,
                    id,
                    now,
                    name_with_password(job.filename@, job.password, has_password),
                    job_name@,
                    job.data@.len(),
                    nzb::total_bytes(parsed.files),
                    job.category@,
                    job.priority,
                )
            },
        },
{
    let parsed = nzb::parse_nzb(job_name.as_str(), job.data.as_slice());
    enqueue_parsed(parsed, job, has_password, job_name, id, now)
}

/// Queues a job, or refuses an NZB file that the parser cannot be given.
pub fn enqueue_if_readable(
    job: NewJob,
    has_password: bool,
    job_name: String,
    id: u128,
    now: Timestamp,
) -> (r: Result<Vec<PlannedWrite>, ApiReply>)
    ensures
        match nzb::nzb_read(job.data@) {
            Err(e) => r matches Err(a) && a.refuses("invalid NZB: "@ + e),
            Ok(parsed) => {
                &&& r matches Ok(w)
                &&& w@.len() == 2
                &&& w@[1].write matches DbWrite::InsertQueueItem(item)
                &&& is_queuing(w@, id, job.data@, item)
                &&& is_new_item(
                    item,
                    id,
                    now,
                    name_with_password(job.filename@, job.password, has_password),
                    job_name@,
                    job.data@.len(),
                    nzb::total_bytes(parsed.files),
                    job.category@,
                    job.priority,
                )
            },
        },
{
    if nzb::nzb_is_readable(job.data.as_slice()) {
        enqueue_nzb(job, has_password, job_name, id, now)
    } else {
        Err(ApiReply::Simple(SimpleResponse::failed("invalid NZB: ", nzb::UNREADABLE)))
    }
}

/// The answer once the writes that queue a job were made, or one of them failed.
pub fn added_reply(id: u128, written: Result<(), WriteFailure>) -> (r: ApiReply)
    ensures
        match written {
            Ok(_) => {
                &&& r matches ApiReply::Added(a)
                &&& a.status
                &&& a.nzo_ids@.len() == 1
                &&& a.nzo_ids@[0]@ == ids::uuid_text(id)
            },
            Err(f) => if f.index == 0 {
                r.refuses("failed to store NZB: "@ + f.error@)
            } else {
                r.refuses("failed to enqueue: "@ + f.error@)
            },
        },
{
    match written {
        Ok(_) => {
            let mut nzo_ids: Vec<String> = Vec::new();
            nzo_ids.push(ids::uuid_to_string(id));
            ApiReply::Added(AddFileResponse { status: true, nzo_ids })
        },
        Err(f) => {
            let message = if f.index == 0 {
                "failed to store NZB: "
            } else {
                "failed to enqueue: "
            };
            ApiReply::Simple(SimpleResponse::failed(message, f.error.as_str()))
        },
    }
}

/// The first entry of a list, where none is given, and how many entries are listed.
pub const DEFAULT_OFFSET: i64 = 0;

pub const DEFAULT_LIMIT: i64 = 50;

/// What a request about the queue asks for.
#[derive(Clone, Debug, PartialEq, Eq)]
pub enum QueueAction {
    Reply(ApiReply),
    Delete(DbWrite),
    List { offset: i64, limit: i64 },
}

/// Whether an optional text is this one.
pub open spec fn names(s: Option<String>, word: Seq<char>) -> bool {
    s matches Some(t) && t@ == word
}

/// Whether an optional text is this one.
fn is_named(s: &Option<String>, word: &str) -> (r: bool)
    ensures
        r == names(*s, word@),
{
    match s {
        Some(t) => text::same(t.as_str(), word),
        None => false,
    }
}

/// The first entry that a request lists.
pub open spec fn offset_of(params: ApiParams) -> i64 {
    match params.start {
        Some(n) => n,
        None => DEFAULT_OFFSET,
    }
}

/// How many entries a request lists.
pub open spec fn limit_of(params: ApiParams) -> i64 {
    match params.limit {
        Some(n) => n,
        None => DEFAULT_LIMIT,
    }
}

/// The page that a request lists.
fn page_of(params: &ApiParams) -> (r: (i64, i64))
    ensures
        r == (offset_of(*params), limit_of(*params)),
{
    let offset: i64 = match params.start {
        Some(n) => n,
        None => DEFAULT_OFFSET,
    };
    let limit: i64 = match params.limit {
        Some(n) => n,
        None => DEFAULT_LIMIT,
    };
    (offset, limit)
}

/// Decides what a request about the queue asks for.
pub fn handle_queue(params: &ApiParams) -> (r: QueueAction)
    ensures
        if names(params.name, "delete"@) || names(params.name, "purge"@) {
            match params.value {
                None => r matches QueueAction::Reply(a) && a.accepts(),
                Some(value) => match ids::uuid_parsed(value@) {
                    None => r matches QueueAction::Reply(a) && a.refuses("invalid id"@),
                    Some(id) => r == QueueAction::Delete(DbWrite::DeleteQueueItem(id)),
                },
            }
        } else {
            r == (QueueAction::List { offset: offset_of(*params), limit: limit_of(*params) })
        },
{
    if is_named(&params.name, "delete") || is_named(&params.name, "purge") {
        match &params.value {
            None => QueueAction::Reply(ApiReply::Simple(SimpleResponse::accepted())),
            Some(value) => match ids::parse_uuid(value.as_str()) {
                None => QueueAction::Reply(
                    ApiReply::Simple(SimpleResponse::refused("invalid id")),
                ),
                Some(id) => QueueAction::Delete(DbWrite::DeleteQueueItem(id)),
            },
        }
    } else {
        let (offset, limit) = page_of(params);
        QueueAction::List { offset, limit }
    }
}

/// The answer once a deletion was made.
pub fn deleted_reply(done: Result<(), String>) -> (r: ApiReply)
    ensures
        match done {
            Ok(_) => r.accepts(),
            Err(e) => r.refuses("database error: "@ + e@),
        },
{
    match done {
        Ok(_) => ApiReply::Simple(SimpleResponse::accepted()),
        Err(e) => ApiReply::Simple(SimpleResponse::failed("database error: ", e.as_str())),
    }
}

/// The name of a priority.
pub open spec fn priority_name(priority: i32) -> Seq<char> {
    if priority <= 0 {
        "Low"@
    } else if priority == 1 {
        "Normal"@
    } else if priority == 2 {
        "High"@
    } else {
        "Force"@
    }
}

/// Writes a priority as the protocol names it.
pub fn priority_to_string(priority: i32) -> (r: String)
    ensures
        r@ == priority_name(priority),
{
    if priority <= 0 {
        "Low".to_string()
    } else if priority == 1 {
        "Normal".to_string()
    } else if priority == 2 {
        "High".to_string()
    } else {
        "Force".to_string()
    }
}

/// Whether a slot shows a queue item.
pub open spec fn shows_item(slot: QueueSlot, item: QueueItem, active: Set<u128>) -> bool {
    &&& slot.nzo_id@ == ids::uuid_text(item.id)
    &&& slot.filename@ == item.job_name@
    &&& slot.cat@ == item.category@
    &&& slot.priority@ == priority_name(item.priority)
    &&& slot.status@ == if active.contains(item.id) {
        "Processing"@
    } else {
        "Queued"@
    }
    &&& slot.bytes == item.total_segment_bytes
    &&& slot.mbleft@ == "0.00"@
    &&& slot.percentage@ == "100"@
    &&& slot.timeleft@ == "0:00:00"@
}

fn queue_slot(item: &QueueItem, status: &QueueStatus) -> (r: QueueSlot)
    ensures
        shows_item(r, *item, status.active_ids@),
{
    let state = if status.active_ids.contains(&item.id) {
        "Processing".to_string()
    } else {
        "Queued".to_string()
    };
    QueueSlot {
        nzo_id: ids::uuid_to_string(item.id),
        filename: item.job_name.clone(),
        cat: item.category.clone(),
        priority: priority_to_string(item.priority),
        status: state,
        bytes: item.total_segment_bytes,
        mbleft: "0.00".to_string(),
        percentage: "100".to_string(),
        timeleft: "0:00:00".to_string(),
    }
}

/// Whether a page shows items of the queue.
pub open spec fn shows_queue(
    q: QueueData,
    items: Seq<QueueItem>,
    total: usize,
    active: Set<u128>,
) -> bool {
    &&& q.status@ == if total > 0 {
        "Downloading"@
    } else {
        "Idle"@
    }
    &&& !q.paused
    &&& q.noofslots == items.len()
    &&& q.noofslots_total == total
    &&& q.speed@ == "0"@
    &&& q.kbpersec@ == "0.00"@
    &&& q.size@ == "0 B"@
    &&& q.sizeleft@ == "0 B"@
    &&& q.mbleft@ == "0.00"@
    &&& q.mb@ == "0.00"@
    &&& q.timeleft@ == "0:00:00"@
    &&& q.eta@ == "unknown"@
    &&& q.diskspace1@ == "999.99"@
    &&& q.diskspacetotal1@ == "999.99"@
    &&& q.slots@.len() == items.len()
    &&& forall|i: int|
        0 <= i < items.len() ==> shows_item(#[trigger] q.slots@[i], items[i], active)
}

/// The answer to a request for a page of the queue.
pub fn queue_reply(
    count: Result<usize, String>,
    items: Result<Vec<QueueItem>, String>,
    status: &QueueStatus,
) -> (r: ApiReply)
    ensures
        match count {
            Err(e) => r.refuses("database error: "@ + e@),
            Ok(total) => match items {
                Err(e) => r.refuses("database error: "@ + e@),
                Ok(v) => r matches ApiReply::Queue(q) && shows_queue(
                    q,
                    v@,
                    total,
                    status.active_ids@,
                ),
            },
        },
{
    let total: usize = match count {
        Ok(total) => total,
        Err(e) => {
            return ApiReply::Simple(SimpleResponse::failed("database error: ", e.as_str()));
        },
    };
    let items = match items {
        Ok(v) => v,
        Err(e) => {
            return ApiReply::Simple(SimpleResponse::failed("database error: ", e.as_str()));
        },
    };
    let mut slots: Vec<QueueSlot> = Vec::new();
    let mut i: usize = 0;
    while i < items.len()
        invariant
            i <= items@.len(),
            slots@.len() == i,
            forall|k: int|
                0 <= k < i ==> shows_item(#[trigger] slots@[k], items@[k], status.active_ids@),
        decreases items@.len() - i,
    {
        slots.push(queue_slot(&items[i], status));
        i += 1;
    }
    let state = if total > 0 {
        "Downloading".to_string()
    } else {
        "Idle".to_string()
    };
    ApiReply::Queue(
        QueueData {
            status: state,
            paused: false,
            noofslots: slots.len(),
            noofslots_total: total,
            speed: "0".to_string(),
            kbpersec: "0.00".to_string(),
            size: "0 B".to_string(),
            sizeleft: "0 B".to_string(),
            mbleft: "0.00".to_string(),
            mb: "0.00".to_string(),
            timeleft: "0:00:00".to_string(),
            eta: "unknown".to_string(),
            diskspace1: "999.99".to_string(),
            diskspacetotal1: "999.99".to_string(),
            slots,
        },
    )
}

/// What a request about the history asks for.
#[derive(Clone, Debug, PartialEq, Eq)]
pub enum HistoryAction {
    Reply(ApiReply),
    Delete(DbWrite),
    /// The items with these identifiers.
    Find(Vec<u128>),
    List { offset: i64, limit: i64 },
}

/// The identifiers among texts, in their order. A text that is none is passed over.
pub open spec fn ids_among(words: Seq<Seq<char>>) -> Seq<u128>
    decreases words.len(),
{
    if words.len() == 0 {
        Seq::empty()
    } else {
        let rest = ids_among(words.drop_last());
        match ids::uuid_parsed(words.last()) {
            Some(id) => rest.push(id),
            None => rest,
        }
    }
}

/// The identifiers in a list that is separated by commas.
pub fn requested_ids(list: &str) -> (r: Vec<u128>)
    ensures
        r@ == ids_among(text::pieces(list@, ',')),
{
    let words = text::split(list, ',');
    let ghost all = words@.map_values(|s: String| s@);
    let mut found: Vec<u128> = Vec::new();
    let mut i: usize = 0;
    assert(all.take(0) =~= Seq::empty());
    while i < words.len()
        invariant
            i <= words@.len(),
            all == words@.map_values(|s: String| s@),
            found@ == ids_among(all.take(i as int)),
        decreases words@.len() - i,
    {
        assert(all.take(i + 1).drop_last() =~= all.take(i as int));
        assert(all.take(i + 1).last() == words@[i as int]@);
        if let Some(id) = ids::parse_uuid(words[i].as_str()) {
            found.push(id);
        }
        i += 1;
    }
    assert(all.take(all.len() as int) =~= all);
    found
}

/// Decides what a request about the history asks for.
pub fn handle_history(params: &ApiParams) -> (r: HistoryAction)
    ensures
        if names(params.name, "delete"@) {
            match params.value {
                None => r matches HistoryAction::Reply(a) && a.accepts(),
                Some(value) => if value@ == "all"@ {
                    r == HistoryAction::Delete(DbWrite::ClearHistory)
                } else {
                    match ids::uuid_parsed(value@) {
                        None => r matches HistoryAction::Reply(a) && a.refuses("invalid id"@),
                        Some(id) => r == HistoryAction::Delete(DbWrite::DeleteHistoryItem(id)),
                    }
                },
            }
        } else {
            match params.nzo_ids {
                Some(list) => r matches HistoryAction::Find(found) && found@ == ids_among(
                    text::pieces(list@, ','),
                ),
                None => r == (HistoryAction::List {
                    offset: offset_of(*params),
                    limit: limit_of(*params),
                }),
            }
        },
{
    if is_named(&params.name, "delete") {
        return match &params.value {
            None => HistoryAction::Reply(ApiReply::Simple(SimpleResponse::accepted())),
            Some(value) => {
                if text::same(value.as_str(), "all") {
                    HistoryAction::Delete(DbWrite::ClearHistory)
                } else {
                    match ids::parse_uuid(value.as_str()) {
                        None => HistoryAction::Reply(
                            ApiReply::Simple(SimpleResponse::refused("invalid id")),
                        ),
                        Some(id) => HistoryAction::Delete(DbWrite::DeleteHistoryItem(id)),
                    }
                }
            },
        };
    }
    match &params.nzo_ids {
        Some(list) => HistoryAction::Find(requested_ids(list.as_str())),
        None => {
            let (offset, limit) = page_of(params);
            HistoryAction::List { offset, limit }
        },
    }
}

/// The name of a status.
pub open spec fn status_name(status: DownloadStatus) -> Seq<char> {
    match status {
        DownloadStatus::Completed => "Completed"@,
        DownloadStatus::Failed => "Failed"@,
    }
}

/// An optional text, empty where there is none.
pub open spec fn or_empty(s: Option<String>) -> Seq<char> {
    match s {
        Some(t) => t@,
        None => Seq::empty(),
    }
}

/// Where the files of a job are: the path of its directory, where it has one that is found.
pub open spec fn storage_of(item: HistoryItem, dir: Option<DavItem>) -> Seq<char> {
    match (item.download_dir_id, dir) {
        (Some(_), Some(d)) => d.path@,
        _ => Seq::empty(),
    }
}

/// Whether a slot shows a history item whose directory was found as `dir`.
pub open spec fn shows_history(slot: HistorySlot, item: HistoryItem, dir: Option<DavItem>) -> bool {
    &&& slot.nzo_id@ == ids::uuid_text(item.id)
    &&& slot.name@ == item.job_name@
    &&& slot.category@ == item.category@
    &&& slot.status@ == status_name(item.download_status)
    &&& slot.fail_message@ == or_empty(item.fail_message)
    &&& slot.bytes == item.total_segment_bytes
    &&& slot.download_time == item.download_time_seconds
    &&& slot.completed == item.created_at.secs
    &&& slot.storage@ == storage_of(item, dir)
}

fn history_slot(item: &HistoryItem, dir: &Option<DavItem>) -> (r: HistorySlot)
    ensures
        shows_history(r, *item, *dir),
{
    let status = match item.download_status {
        DownloadStatus::Completed => "Completed".to_string(),
        DownloadStatus::Failed => "Failed".to_string(),
    };
    let fail_message = match &item.fail_message {
        Some(m) => m.clone(),
        None => String::new(),
    };
    let storage = match (item.download_dir_id, dir) {
        (Some(_), Some(d)) => d.path.clone(),
        _ => String::new(),
    };
    HistorySlot {
        nzo_id: ids::uuid_to_string(item.id),
        name: item.job_name.clone(),
        category: item.category.clone(),
        status,
        fail_message,
        bytes: item.total_segment_bytes,
        download_time: item.download_time_seconds,
        completed: item.created_at.secs,
        storage,
    }
}

/// Whether slots show history items, each with its directory.
pub open spec fn shows_all(
    slots: Seq<HistorySlot>,
    items: Seq<HistoryItem>,
    dirs: Seq<Option<DavItem>>,
) -> bool {
    &&& slots.len() == items.len()
    &&& forall|i: int|
        0 <= i < items.len() ==> shows_history(#[trigger] slots[i], items[i], dirs[i])
}

fn history_slots(items: &Vec<HistoryItem>, dirs: &Vec<Option<DavItem>>) -> (r: Vec<HistorySlot>)
    requires
        dirs@.len() == items@.len(),
    ensures
        shows_all(r@, items@, dirs@),
{
    let mut slots: Vec<HistorySlot> = Vec::new();
    let mut i: usize = 0;
    while i < items.len()
        invariant
            i <= items@.len(),
            dirs@.len() == items@.len(),
            slots@.len() == i,
            forall|k: int|
                0 <= k < i ==> shows_history(#[trigger] slots@[k], items@[k], dirs@[k]),
        decreases items@.len() - i,
    {
        slots.push(history_slot(&items[i], &dirs[i]));
        i += 1;
    }
    slots
}

/// The answer to a request for a page of the history. `dirs` holds for each item the
/// directory that it names, where that was found.
pub fn history_reply(
    items: Result<Vec<HistoryItem>, String>,
    count: Result<usize, String>,
    dirs: Vec<Option<DavItem>>,
) -> (r: ApiReply)
    requires
        items matches Ok(v) ==> dirs@.len() == v@.len(),
    ensures
        match items {
            Err(e) => r.refuses("database error: "@ + e@),
            Ok(v) => match count {
                Err(e) => r.refuses("database error: "@ + e@),
                Ok(total) => {
                    &&& r matches ApiReply::History(h)
                    &&& h.noofslots == total
                    &&& shows_all(h.slots@, v@, dirs@)
                },
            },
        },
{
    let items = match items {
        Ok(v) => v,
        Err(e) => {
            return ApiReply::Simple(SimpleResponse::failed("database error: ", e.as_str()));
        },
    };
    let total: usize = match count {
        Ok(total) => total,
        Err(e) => {
            return ApiReply::Simple(SimpleResponse::failed("database error: ", e.as_str()));
        },
    };
    let slots = history_slots(&items, &dirs);
    ApiReply::History(HistoryData { noofslots: total, slots })
}

/// The items that lookups found, or the error of the first one that failed.
pub open spec fn found_among(lookups: Seq<Result<Option<HistoryItem>, String>>) -> Result<
    Seq<HistoryItem>,
    Seq<char>,
>
    decreases lookups.len(),
{
    if lookups.len() == 0 {
        Ok(Seq::empty())
    } else {
        match found_among(lookups.drop_last()) {
            Err(e) => Err(e),
            Ok(found) => match lookups.last() {
                Err(e) => Err(e@),
                Ok(Some(item)) => Ok(found.push(item)),
                Ok(None) => Ok(found),
            },
        }
    }
}

/// An earlier failure stays.
proof fn lemma_found_error(lookups: Seq<Result<Option<HistoryItem>, String>>, k: int)
    requires
        0 <= k <= lookups.len(),
        found_among(lookups.take(k)) is Err,
    ensures
        found_among(lookups) == found_among(lookups.take(k)),
    decreases lookups.len(),
{
    if k < lookups.len() {
        assert(lookups.drop_last().take(k) =~= lookups.take(k));
        lemma_found_error(lookups.drop_last(), k);
    } else {
        assert(lookups.take(k) =~= lookups);
    }
}

/// Collects the items that lookups found.
pub fn found_items(lookups: Vec<Result<Option<HistoryItem>, String>>) -> (r: Result<
    Vec<HistoryItem>,
    String,
>)
    ensures
        match found_among(lookups@) {
            Ok(found) => r is Ok && r->Ok_0@ == found,
            Err(e) => r is Err && r->Err_0@ == e,
        },
{
    let ghost all = lookups@;
    let mut found: Vec<HistoryItem> = Vec::new();
    assert(all.take(0) =~= Seq::empty());
    for lookup in it: lookups
        invariant
            it.seq() == all,
            found_among(all.take(it.index() as int)) == Ok::<Seq<HistoryItem>, Seq<char>>(found@),
    {
        proof {
            assert(all.take(it.index() + 1).drop_last() =~= all.take(it.index() as int));
            assert(all.take(it.index() + 1).last() == lookup);
        }
        match lookup {
            Err(e) => {
                proof {
                    lemma_found_error(all, it.index() + 1);
                }
                return Err(e);
            },
            Ok(Some(item)) => found.push(item),
            Ok(None) => {},
        }
    }
    assert(all.take(all.len() as int) =~= all);
    Ok(found)
}

/// The answer to a request for the history items with certain identifiers.
pub fn found_reply(found: Result<Vec<HistoryItem>, String>, dirs: Vec<Option<DavItem>>) -> (r:
    ApiReply)
    requires
        found matches Ok(v) ==> dirs@.len() == v@.len(),
    ensures
        match found {
            Err(e) => r.refuses("database error: "@ + e@),
            Ok(v) => {
                &&& r matches ApiReply::History(h)
                &&& h.noofslots == v@.len()
                &&& shows_all(h.slots@, v@, dirs@)
            },
        },
{
    match found {
        Err(e) => ApiReply::Simple(SimpleResponse::failed("database error: ", e.as_str())),
        Ok(items) => {
            let slots = history_slots(&items, &dirs);
            ApiReply::History(HistoryData { noofslots: slots.len(), slots })
        },
    }
}

/// The history item that a path names for a retry.
pub fn rest_retry_history(id: &str) -> (r: Result<u128, ApiReply>)
    ensures
        match ids::uuid_parsed(id@) {
            Some(parsed) => r == Ok::<u128, ApiReply>(parsed),
            None => r is Err && r->Err_0.refuses("invalid id"@),
        },
{
    match ids::parse_uuid(id) {
        Some(parsed) => Ok(parsed),
        None => Err(ApiReply::Simple(SimpleResponse::refused("invalid id"))),
    }
}

/// The history item that the parameters name for a retry.
pub fn handle_retry(params: &ApiParams) -> (r: Result<u128, ApiReply>)
    ensures
        match params.value {
            None => r is Err && r->Err_0.refuses("value parameter (nzo_id) is required"@),
            Some(value) => match ids::uuid_parsed(value@) {
                Some(parsed) => r == Ok::<u128, ApiReply>(parsed),
                None => r is Err && r->Err_0.refuses("invalid id"@),
            },
        },
{
    match &params.value {
        None => Err(
            ApiReply::Simple(SimpleResponse::refused("value parameter (nzo_id) is required")),
        ),
        Some(value) => rest_retry_history(value.as_str()),
    }
}

/// Whether a queue item is the one for a second try of a history item.
pub open spec fn is_retry(
    item: QueueItem,
    history: HistoryItem,
    id: u128,
    now: Timestamp,
    size: nat,
) -> bool {
    &&& item.id == id
    &&& item.created_at == now
    &&& item.file_name@ == history.file_name@
    &&& item.job_name@ == history.job_name@
    &&& item.nzb_file_size == num::as_signed(size as u64)
    &&& item.total_segment_bytes == history.total_segment_bytes
    &&& item.category@ == history.category@
    &&& item.priority == 0
    &&& item.post_processing == -1
    &&& item.pause_until is None
}

/// Queues a history item again, with its NZB file, and takes it out of the history. That
/// the last does not succeed is passed over.
///
/// `blob` is what was read of the NZB file that the item names.
pub fn retry_history_item(
    id: u128,
    history: Result<Option<HistoryItem>, String>,
    blob: Result<Vec<u8>, String>,
    new_id: u128,
    now: Timestamp,
) -> (r: Result<Vec<PlannedWrite>, ApiReply>)
    ensures
        match history {
            Err(e) => r matches Err(a) && a.refuses("database error: "@ + e@),
            Ok(None) => r matches Err(a) && a.refuses("history item not found"@),
            Ok(Some(h)) => match (h.nzb_blob_id, blob) {
                (None, _) => r matches Err(a) && a.refuses(
                    "NZB blob not available for this history item"@,
                ),
                (Some(_), Err(_)) => r matches Err(a) && a.refuses(
                    "NZB blob has been cleaned up and is no longer available"@,
                ),
                (Some(_), Ok(data)) => {
                    &&& r matches Ok(w)
                    &&& w@.len() == 3
                    &&& w@[1].write matches DbWrite::InsertQueueItem(item)
                    &&& is_queuing(w@, new_id, data@, item)
                    &&& is_retry(item, h, new_id, now, data@.len())
                    &&& w@[2] == (PlannedWrite {
                        write: DbWrite::DeleteHistoryItem(id),
                        required: false,
                    })
                },
            },
        },
{
    let h = match history {
        Ok(Some(h)) => h,
        Ok(None) => {
            return Err(ApiReply::Simple(SimpleResponse::refused("history item not found")));
        },
        Err(e) => {
            return Err(ApiReply::Simple(SimpleResponse::failed("database error: ", e.as_str())));
        },
    };
    if h.nzb_blob_id.is_none() {
        return Err(
            ApiReply::Simple(
                SimpleResponse::refused("NZB blob not available for this history item"),
            ),
        );
    }
    let data = match blob {
        Ok(data) => data,
        Err(_) => {
            return Err(
                ApiReply::Simple(
                    SimpleResponse::refused(
                        "NZB blob has been cleaned up and is no longer available",
                    ),
                ),
            );
        },
    };
    let item = QueueItem {
        id: new_id,
        created_at: now,
        file_name: h.file_name,
        job_name: h.job_name,
        nzb_file_size: num::to_signed(data.len() as u64),
        total_segment_bytes: h.total_segment_bytes,
        category: h.category,
        priority: 0,
        post_processing: -1,
        pause_until: None,
    };
    let mut writes: Vec<PlannedWrite> = Vec::new();
    writes.push(db::required(DbWrite::PutNzbBlob { id: new_id, data }));
    writes.push(db::required(DbWrite::InsertQueueItem(item)));
    writes.push(db::best_effort(DbWrite::DeleteHistoryItem(id)));
    Ok(writes)
}

/// A job that was added is last in the queue, its NZB file is stored, and the identifier
/// that the client gets stands for it.
pub proof fn law_added_job_is_queued(
    t: Tables,
    w: Seq<PlannedWrite>,
    id: u128,
    data: Seq<u8>,
    item: QueueItem,
)
    requires
        w.len() == 2,
        is_queuing(w, id, data, item),
    ensures
        ({
            let after = db::after_writes(t, w);
            &&& after.queue == t.queue.push(item)
            &&& after.nzb_blobs == t.nzb_blobs.insert(id, data)
            &&& after.items == t.items
            &&& after.history == t.history
            &&& ids::uuid_parsed(ids::uuid_text(id)) == Some(item.id)
        }),
{
    assert(w =~= Seq::<PlannedWrite>::empty().push(w[0]).push(w[1]));
    db::lemma_after_writes_last(t, Seq::empty().push(w[0]), w[1]);
    db::lemma_after_writes_last(t, Seq::empty(), w[0]);
    ids::law_uuid_text_parses_back(id);
}

/// Deleting a queue item removes the rows with its identifier and nothing else. To do it
/// again changes nothing.
pub proof fn law_deleted_queue_item_is_gone(t: Tables, id: u128)
    ensures
        ({
            let write = DbWrite::DeleteQueueItem(id);
            let after = db::after_write(t, write);
            &&& forall|q: QueueItem| #[trigger]
                after.queue.contains(q) <==> t.queue.contains(q) && q.id != id
            &&& after == (Tables { queue: after.queue, ..t })
            &&& db::after_write(after, write) == after
        }),
{
    let keep = |q: QueueItem| q.id != id;
    db::lemma_filter_contains(t.queue, keep);
    db::lemma_filter_twice(t.queue, keep);
}

/// Deleting a history item removes the rows with its identifier and nothing else. To do it
/// again changes nothing.
pub proof fn law_deleted_history_item_is_gone(t: Tables, id: u128)
    ensures
        ({
            let write = DbWrite::DeleteHistoryItem(id);
            let after = db::after_write(t, write);
            &&& forall|h: HistoryItem| #[trigger]
                after.history.contains(h) <==> t.history.contains(h) && h.id != id
            &&& after == (Tables { history: after.history, ..t })
            &&& db::after_write(after, write) == after
        }),
{
    let keep = |h: HistoryItem| h.id != id;
    db::lemma_filter_contains(t.history, keep);
    db::lemma_filter_twice(t.history, keep);
}

/// Clearing the history leaves it empty and everything else as it was. To do it again
/// changes nothing.
pub proof fn law_cleared_history_is_empty(t: Tables)
    ensures
        ({
            let after = db::after_write(t, DbWrite::ClearHistory);
            &&& after == (Tables { history: Seq::empty(), ..t })
            &&& db::after_write(after, DbWrite::ClearHistory) == after
        }),
{
}

/// A history item that is tried again is queued under its names and with its NZB file, and
/// is no more in the history.
pub proof fn law_retried_item_is_queued(
    t: Tables,
    w: Seq<PlannedWrite>,
    history: HistoryItem,
    blob_id: u128,
    new_id: u128,
    now: Timestamp,
    item: QueueItem,
)
    requires
        history.nzb_blob_id == Some(blob_id),
        t.nzb_blobs.contains_key(blob_id),
        w.len() == 3,
        is_queuing(w, new_id, t.nzb_blobs[blob_id], item),
        is_retry(item, history, new_id, now, t.nzb_blobs[blob_id].len()),
        w[2] == (PlannedWrite { write: DbWrite::DeleteHistoryItem(history.id), required: false }),
    ensures
        ({
            let after = db::after_writes(t, w);
            &&& after.queue == t.queue.push(item)
            &&& item.file_name@ == history.file_name@
            &&& item.job_name@ == history.job_name@
            &&& item.category@ == history.category@
            &&& after.nzb_blobs[item.id] == t.nzb_blobs[blob_id]
            &&& forall|h: HistoryItem| after.history.contains(h) ==> h.id != history.id
            &&& forall|h: HistoryItem|
                t.history.contains(h) && h.id != history.id ==> after.history.contains(h)
        }),
{
    assert(w =~= Seq::<PlannedWrite>::empty().push(w[0]).push(w[1]).push(w[2]));
    db::lemma_after_writes_last(t, Seq::empty().push(w[0]).push(w[1]), w[2]);
    db::lemma_after_writes_last(t, Seq::empty().push(w[0]), w[1]);
    db::lemma_after_writes_last(t, Seq::empty(), w[0]);
    let keep = |h: HistoryItem| h.id != history.id;
    db::lemma_filter_contains(t.history, keep);
    let after = db::after_writes(t, w);
    assert(after.history == t.history.filter(keep));
}

/// An item that was moved to the history can be tried again: its NZB file is the one that
/// it was queued with, and the second try has its names, its category and its size.
pub proof fn law_archived_item_can_be_retried(
    item: QueueItem,
    history: HistoryItem,
    status: DownloadStatus,
    fail_message: Option<Seq<char>>,
    dir: Option<u128>,
    ended: Timestamp,
    again: QueueItem,
    new_id: u128,
    now: Timestamp,
    size: nat,
)
    requires
        queue_manager::records(history, item, status, fail_message, dir, ended),
        is_retry(again, history, new_id, now, size),
    ensures
        history.nzb_blob_id == Some(item.id),
        again.file_name@ == item.file_name@,
        again.job_name@ == item.job_name@,
        again.category@ == item.category@,
        again.total_segment_bytes == item.total_segment_bytes,
{
}

/// What looking up identifiers in the history gives.
pub open spec fn lookups_of(history: Seq<HistoryItem>, wanted: Seq<u128>) -> Seq<
    Result<Option<HistoryItem>, String>,
> {
    wanted.map_values(|id: u128| Ok(queue_manager::history_by_id(history, id)))
}

/// What is found under an identifier has it.
proof fn lemma_history_by_id(history: Seq<HistoryItem>, id: u128)
    ensures
        queue_manager::history_by_id(history, id) matches Some(h) ==> h.id == id
            && history.contains(h),
    decreases history.len(),
{
    if history.len() > 0 && history[0].id != id {
        let rest = history.drop_first();
        lemma_history_by_id(rest, id);
        match queue_manager::history_by_id(rest, id) {
            Some(h) => {
                let k = choose|k: int| 0 <= k < rest.len() && rest[k] == h;
                assert(history[k + 1] == h);
            },
            None => {},
        }
    } else if history.len() > 0 {
        assert(history.contains(history[0]));
    }
}

/// A request for certain identifiers gives the items of the history that have one of them,
/// and no others, however long the history is.
pub proof fn law_found_items_are_the_requested(history: Seq<HistoryItem>, wanted: Seq<u128>)
    ensures
        found_among(lookups_of(history, wanted)) is Ok,
        forall|h: HistoryItem| #[trigger]
            found_among(lookups_of(history, wanted))->Ok_0.contains(h) ==> wanted.contains(h.id)
                && history.contains(h),
        forall|id: u128| #[trigger]
            wanted.contains(id) ==> (queue_manager::history_by_id(history, id) matches Some(h)
                ==> found_among(lookups_of(history, wanted))->Ok_0.contains(h)),
    decreases wanted.len(),
{
    let all = lookups_of(history, wanted);
    if wanted.len() > 0 {
        let rest = wanted.drop_last();
        let last = wanted.last();
        law_found_items_are_the_requested(history, rest);
        assert(all.drop_last() =~= lookups_of(history, rest));
        lemma_history_by_id(history, last);
        let before = found_among(lookups_of(history, rest))->Ok_0;
        let found = found_among(all)->Ok_0;
        assert forall|h: HistoryItem| #[trigger] found.contains(h) implies wanted.contains(h.id)
            && history.contains(h) by {
            let k = choose|k: int| 0 <= k < found.len() && found[k] == h;
            if k < before.len() {
                assert(before[k] == h);
                assert(before.contains(h));
                let j = choose|j: int| 0 <= j < rest.len() && rest[j] == h.id;
                assert(wanted[j] == h.id);
            } else {
                assert(wanted[wanted.len() - 1] == h.id);
            }
        }
        assert forall|id: u128| #[trigger] wanted.contains(id) implies (
        queue_manager::history_by_id(history, id) matches Some(h) ==> found.contains(h)) by {
            match queue_manager::history_by_id(history, id) {
                Some(h) => {
                    if id == last {
                        assert(found[before.len() as int] == h);
                    } else {
                        let j = choose|j: int| 0 <= j < wanted.len() && wanted[j] == id;
                        assert(rest[j] == id);
                        assert(rest.contains(id));
                        let k = choose|k: int| 0 <= k < before.len() && before[k] == h;
                        assert(found[k] == h);
                    }
                },
                None => {},
            }
        }
    }
}

/// A client that asks for the identifier that it was given gets exactly that one looked up.
pub proof fn law_given_id_is_requested(id: u128)
    ensures
        ids_among(text::pieces(ids::uuid_text(id), ',')) == seq![id],
{
    let t = ids::uuid_text(id);
    ids::law_uuid_text_parses_back(id);
    ids::lemma_uuid_text_chars(id);
    text::lemma_last_position(t, ',');
    assert(text::pieces(t, ',') =~= seq![t]);
    let words = seq![t];
    assert(words.drop_last() =~= Seq::<Seq<char>>::empty());
    assert(words.last() == t);
    assert(ids_among(Seq::<Seq<char>>::empty()) =~= Seq::<u128>::empty());
    assert(ids_among(words) =~= Seq::<u128>::empty().push(id));
}

/// A name that holds a password already is stored as it is, and so is one without a
/// password: no password is put in twice.
pub proof fn law_password_is_put_in_once(filename: Seq<char>, password: Option<String>)
    ensures
        name_with_password(filename, password, true) == filename,
        name_with_password(filename, None, false) == filename,
{
}

} // verus!
