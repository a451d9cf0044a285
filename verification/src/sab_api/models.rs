//! What the API answers.

use vstd::prelude::*;

use crate::text;

verus! {

/// That a request was carried out, or why not.
#[derive(Clone, Debug, PartialEq, Eq)]
pub struct SimpleResponse {
    pub status: bool,
    pub error: Option<String>,
}

impl SimpleResponse {
    /// Whether the response says that the request was carried out.
    pub open spec fn accepts(self) -> bool {
        self.status && self.error is None
    }

    /// Whether the response says why the request was not carried out.
    pub open spec fn refuses(self, message: Seq<char>) -> bool {
        !self.status && self.error is Some && self.error->0@ == message
    }

    /// The request was carried out.
    pub fn accepted() -> (r: Self)
        ensures
            r.accepts(),
    {
        SimpleResponse { status: true, error: None }
    }

    /// The request was not carried out, for this reason.
    pub fn refused(message: &str) -> (r: Self)
        ensures
            r.refuses(message@),
    {
        SimpleResponse { status: false, error: Some(message.to_string()) }
    }

    /// The request was not carried out, for this reason with this detail.
    pub fn failed(message: &str, detail: &str) -> (r: Self)
        ensures
            r.refuses(message@ + detail@),
    {
        SimpleResponse { status: false, error: Some(text::join(message, detail)) }
    }
}

/// That an NZB file was queued, and under which identifiers.
#[derive(Clone, Debug, PartialEq, Eq)]
pub struct AddFileResponse {
    pub status: bool,
    pub nzo_ids: Vec<String>,
}

#[derive(Clone, Debug, PartialEq, Eq)]
pub struct VersionResponse {
    pub version: String,
}

#[derive(Clone, Debug, PartialEq, Eq)]
pub struct CategoriesResponse {
    pub categories: Vec<String>,
}

/// The state of the server. Numbers are written as the protocol has them.
#[derive(Clone, Debug, PartialEq, Eq)]
pub struct FullStatus {
    pub version: String,
    pub paused: bool,
    pub pause_int: String,
    pub kbpersec: String,
    pub speed: String,
    pub mbleft: String,
    pub mb: String,
    pub noofslots: usize,
    pub noofslots_total: usize,
    pub timeleft: String,
    pub eta: String,
    pub diskspace1: String,
    pub diskspacetotal1: String,
    pub diskspace2: String,
    pub diskspacetotal2: String,
    pub have_warnings: String,
    pub loadavg: String,
    pub cache_art: String,
    pub cache_size: String,
    pub finishaction: Option<String>,
    pub quota: String,
    pub left_quota: String,
    pub speedlimit: String,
    pub servers: Vec<String>,
}

/// A category of the configuration.
#[derive(Clone, Debug, PartialEq, Eq)]
pub struct ConfigCategory {
    pub name: String,
    pub order: i32,
    pub dir: String,
    pub newzbin: String,
    pub priority: i32,
}

/// The general part of the configuration.
#[derive(Clone, Debug, PartialEq, Eq)]
pub struct ConfigMisc {
    pub port: String,
    pub host: String,
    pub api_key: String,
    pub complete_dir: String,
    pub dirscan_dir: String,
    pub download_dir: String,
    pub history_retention: String,
    pub pause_on_post_processing: i32,
    pub pre_check: i32,
    pub quota_size: String,
    pub quota_day: String,
    pub quota_period: String,
    pub refresh_rate: i32,
    pub bandwidth_max: String,
    pub cache_limit: String,
}

/// The configuration.
#[derive(Clone, Debug, PartialEq, Eq)]
pub struct ConfigData {
    pub misc: ConfigMisc,
    pub categories: Vec<ConfigCategory>,
    pub servers: Vec<String>,
}

/// An item of the queue.
#[derive(Clone, Debug, PartialEq, Eq)]
pub struct QueueSlot {
    pub nzo_id: String,
    pub filename: String,
    pub cat: String,
    pub priority: String,
    pub status: String,
    /// The size, which a client gets in megabytes.
    pub bytes: i64,
    pub mbleft: String,
    pub percentage: String,
    pub timeleft: String,
}

/// A page of the queue.
#[derive(Clone, Debug, PartialEq, Eq)]
pub struct QueueData {
    pub status: String,
    pub paused: bool,
    pub noofslots: usize,
    pub noofslots_total: usize,
    pub speed: String,
    pub kbpersec: String,
    pub size: String,
    pub sizeleft: String,
    pub mbleft: String,
    pub mb: String,
    pub timeleft: String,
    pub eta: String,
    pub diskspace1: String,
    pub diskspacetotal1: String,
    pub slots: Vec<QueueSlot>,
}

/// An item of the history.
#[derive(Clone, Debug, PartialEq, Eq)]
pub struct HistorySlot {
    pub nzo_id: String,
    pub name: String,
    pub category: String,
    pub status: String,
    pub fail_message: String,
    pub bytes: i64,
    pub download_time: i64,
    pub completed: i64,
    pub storage: String,
}

/// A page of the history.
#[derive(Clone, Debug, PartialEq, Eq)]
pub struct HistoryData {
    pub noofslots: usize,
    pub slots: Vec<HistorySlot>,
}

/// An answer of the API.
#[derive(Clone, Debug, PartialEq, Eq)]
pub enum ApiReply {
    Simple(SimpleResponse),
    Added(AddFileResponse),
    Version(VersionResponse),
    Categories(CategoriesResponse),
    Status(FullStatus),
    Config(ConfigData),
    Queue(QueueData),
    History(HistoryData),
}

impl ApiReply {
    /// Whether the answer says why a request was not carried out.
    pub open spec fn refuses(self, message: Seq<char>) -> bool {
        self matches ApiReply::Simple(r) && r.refuses(message)
    }

    /// Whether the answer says that a request was carried out.
    pub open spec fn accepts(self) -> bool {
        self matches ApiReply::Simple(r) && r.accepts()
    }
}

} // verus!
