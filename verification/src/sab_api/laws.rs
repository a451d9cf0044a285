//! What holds of the API as a whole: what a client asks for is what is queued, shown and
//! deleted. Each law speaks of the functions themselves: `call_ensures(f, args, r)` says
//! that `f` returns `r` for these arguments.

use vstd::prelude::*;

use crate::db;
use crate::db::{DbWrite, PlannedWrite, Tables, WriteFailure};
use crate::ids;
use crate::models::{DavItem, DownloadStatus, HistoryItem, QueueItem, Timestamp};
use crate::nzb;
use crate::nzb::NzbJob;
use crate::pipeline::queue_item_processor;
use crate::queue_manager::QueueStatus;
use crate::sab_api::handler;
use crate::sab_api::handler::{
    ApiParams, Dispatch, Fetch, HistoryAction, Mode, NewJob, QueueAction, Upload,
};
use crate::sab_api::models::{ApiReply, ConfigData, FullStatus, SimpleResponse};
use crate::text;

verus! {

/// What is left of a name that ends in `.nzb` once is what comes before that.
proof fn lemma_base_name(base: Seq<char>, suffix: Seq<char>)
    requires
        suffix.len() > 0,
        !text::ends_with(base, suffix),
    ensures
        text::without_suffixes(base + suffix, suffix) == base,
{
    let whole = base + suffix;
    assert(whole.subrange(whole.len() - suffix.len(), whole.len() as int) =~= suffix);
    assert(whole.subrange(0, whole.len() - suffix.len()) =~= base);
    reveal_with_fuel(text::without_suffixes, 2);
}

/// Whether a queue is the one before with an item added to its end: that of a job.
pub open spec fn queues_job(before: Seq<QueueItem>, after: Seq<QueueItem>, job: NewJob) -> bool {
    &&& after.len() == before.len() + 1
    &&& after.drop_last() == before
    &&& after.last().priority == job.priority
    &&& after.last().category@ == job.category@
    &&& after.last().post_processing == -1
    &&& after.last().pause_until is None
    &&& job.data@.len() <= i64::MAX ==> after.last().nzb_file_size == job.data@.len()
}

/// A job that is queued stands at the end of the queue with the priority and the category
/// that it was added with, under the identifier that is given, with the sizes of its NZB
/// file and of the files in it; its NZB file is stored under the same identifier. One that
/// cannot be parsed changes nothing.
pub proof fn law_jobs_are_queued_as_asked(
    t: Tables,
    parsed: Result<NzbJob, String>,
    job: NewJob,
    has_password: bool,
    job_name: String,
    id: u128,
    now: Timestamp,
    r: Result<Vec<PlannedWrite>, ApiReply>,
)
    requires
        call_ensures(
            handler::enqueue_parsed,
            (parsed, job, has_password, job_name, id, now),
            r,
        ),
    ensures
        r is Ok <==> parsed is Ok,
        parsed matches Err(e) ==> (r->Err_0 matches ApiReply::Simple(s) && !s.status && (s.error
            matches Some(m) && m@ == "invalid NZB: "@ + e@)),
        parsed matches Ok(files) ==> {
            let after = db::after_writes(t, r->Ok_0@);
            let total = nzb::total_bytes(files@.files);
            &&& queues_job(t.queue, after.queue, job)
            &&& after.queue.last().id == id
            &&& after.queue.last().job_name@ == job_name@
            &&& after.queue.last().created_at == now
            &&& total <= i64::MAX ==> after.queue.last().total_segment_bytes == total
            &&& i64::MAX < total <= u64::MAX ==> after.queue.last().total_segment_bytes == total
                - 0x1_0000_0000_0000_0000
            &&& after.nzb_blobs == t.nzb_blobs.insert(id, job.data@)
            &&& after.items == t.items
            &&& after.history == t.history
            &&& forall|k: int| 0 <= k < r->Ok_0@.len() ==> (#[trigger] r->Ok_0@[k]).required
        },
{
    if let Ok(files) = parsed {
        let w = r->Ok_0@;
        assert(w =~= Seq::<PlannedWrite>::empty().push(w[0]).push(w[1]));
        db::lemma_after_writes_last(t, Seq::empty().push(w[0]), w[1]);
        db::lemma_after_writes_last(t, Seq::empty(), w[0]);
        let after = db::after_writes(t, w);
        assert(after.queue.drop_last() =~= t.queue);
        assert(job.data.len() == job.data@.len());
        assert forall|k: int| 0 <= k < w.len() implies (#[trigger] w[k]).required by {
            assert(k == 0 || k == 1);
        }
    }
}

/// The NZB file that a client sends decides what is queued: what the parser makes of it.
pub proof fn law_sent_nzb_is_queued(
    t: Tables,
    job: NewJob,
    has_password: bool,
    job_name: String,
    id: u128,
    now: Timestamp,
    r: Result<Vec<PlannedWrite>, ApiReply>,
)
    requires
        nzb::is_readable(job.data@),
        call_ensures(
            handler::enqueue_if_readable,
            (job, has_password, job_name, id, now),
            r,
        ),
    ensures
        r is Ok <==> nzb::nzb_parsed(job.data@) is Ok,
        r is Err ==> (r->Err_0 matches ApiReply::Simple(s) && !s.status && (s.error matches Some(m)
            && m@ == "invalid NZB: "@ + nzb::nzb_parsed(job.data@)->Err_0)),
        r is Ok ==> {
            let after = db::after_writes(t, r->Ok_0@);
            let total = nzb::total_bytes(nzb::nzb_parsed(job.data@)->Ok_0.files);
            &&& queues_job(t.queue, after.queue, job)
            &&& after.queue.last().id == id
            &&& after.queue.last().job_name@ == job_name@
            &&& total <= i64::MAX ==> after.queue.last().total_segment_bytes == total
            &&& after.nzb_blobs == t.nzb_blobs.insert(id, job.data@)
            &&& after.items == t.items
            &&& after.history == t.history
        },
{
    if r is Ok {
        let w = r->Ok_0@;
        assert(w =~= Seq::<PlannedWrite>::empty().push(w[0]).push(w[1]));
        db::lemma_after_writes_last(t, Seq::empty().push(w[0]), w[1]);
        db::lemma_after_writes_last(t, Seq::empty(), w[0]);
        assert(db::after_writes(t, w).queue.drop_last() =~= t.queue);
        assert(job.data.len() == job.data@.len());
    }
}

/// Jobs that differ in priority, or in category, give queue items that differ in it.
pub proof fn law_different_jobs_stay_different(
    files: NzbJob,
    other_files: NzbJob,
    job: NewJob,
    other: NewJob,
    has_password: bool,
    name: String,
    id: u128,
    other_id: u128,
    now: Timestamp,
    a: Result<Vec<PlannedWrite>, ApiReply>,
    b: Result<Vec<PlannedWrite>, ApiReply>,
    x: QueueItem,
    y: QueueItem,
)
    requires
        call_ensures(handler::enqueue_parsed, (Ok(files), job, has_password, name, id, now), a),
        call_ensures(
            handler::enqueue_parsed,
            (Ok(other_files), other, has_password, name, other_id, now),
            b,
        ),
        a is Ok && a->Ok_0@.len() == 2,
        b is Ok && b->Ok_0@.len() == 2,
        a->Ok_0@[1].write == DbWrite::InsertQueueItem(x),
        b->Ok_0@[1].write == DbWrite::InsertQueueItem(y),
    ensures
        x.priority == y.priority <==> job.priority == other.priority,
        x.category@ == y.category@ <==> job.category@ == other.category@,
        x.id == y.id <==> id == other_id,
{
}

/// A name that comes with a password has it put in, before its extension; one that holds a
/// password already, and one without, is stored as it is.
pub proof fn law_passwords_are_stored_in_the_name(
    files: NzbJob,
    job: NewJob,
    has_password: bool,
    job_name: String,
    id: u128,
    now: Timestamp,
    r: Result<Vec<PlannedWrite>, ApiReply>,
    item: QueueItem,
    base: Seq<char>,
)
    requires
        call_ensures(
            handler::enqueue_parsed,
            (Ok(files), job, has_password, job_name, id, now),
            r,
        ),
        r is Ok && r->Ok_0@.len() == 2,
        r->Ok_0@[1].write == DbWrite::InsertQueueItem(item),
        job.filename@ == base + ".nzb"@ || job.filename@ == base,
        forall|front: Seq<char>| base != #[trigger] (front + ".nzb"@),
    ensures
        has_password ==> item.file_name@ == job.filename@,
        job.password is None ==> item.file_name@ == job.filename@,
        job.password matches Some(p) ==> p@.len() == 0 ==> item.file_name@ == job.filename@,
        job.password matches Some(p) ==> p@.len() > 0 && !has_password ==> item.file_name@ == base
            + " {{"@ + p@ + "}}"@ + ".nzb"@,
{
    reveal_strlit(".nzb");
    reveal_strlit("}}.nzb");
    reveal_strlit("}}");
    if text::ends_with(base, ".nzb"@) {
        let front = base.subrange(0, base.len() - 4);
        assert(base =~= front + ".nzb"@);
    }
    lemma_base_name(base, ".nzb"@);
    if let Some(p) = job.password {
        assert("}}.nzb"@ =~= "}}"@ + ".nzb"@);
        assert(base + " {{"@ + p@ + "}}.nzb"@ =~= base + " {{"@ + p@ + "}}"@ + ".nzb"@);
    }
}

/// A file that is added becomes a job with its name and its bytes, and with the category,
/// the priority and the password that the client gave.
pub proof fn law_added_files_become_jobs(
    params: ApiParams,
    filename: Option<String>,
    data: Vec<u8>,
    r: Result<NewJob, ApiReply>,
)
    requires
        call_ensures(handler::handle_addfile, (params, Upload::File { filename, data }), r),
    ensures
        r is Ok,
        filename matches Some(f) ==> r->Ok_0.filename@ == f@,
        filename is None ==> r->Ok_0.filename@ == "unknown.nzb"@,
        r->Ok_0.data == data,
        params.cat matches Some(c) ==> r->Ok_0.category@ == c@,
        params.cat is None ==> r->Ok_0.category@.len() == 0,
        params.priority matches Some(p) ==> r->Ok_0.priority == p,
        params.priority is None ==> r->Ok_0.priority == 0,
        r->Ok_0.password == params.password,
{
}

/// A client that adds a file finds in the queue what it asked for: its priority, its
/// category, and its NZB file.
pub proof fn law_added_files_are_queued_as_asked(
    t: Tables,
    params: ApiParams,
    filename: String,
    data: Vec<u8>,
    job: NewJob,
    files: NzbJob,
    has_password: bool,
    job_name: String,
    id: u128,
    now: Timestamp,
    r: Result<Vec<PlannedWrite>, ApiReply>,
)
    requires
        call_ensures(
            handler::handle_addfile,
            (params, Upload::File { filename: Some(filename), data }),
            Ok(job),
        ),
        call_ensures(
            handler::enqueue_parsed,
            (Ok(files), job, has_password, job_name, id, now),
            r,
        ),
    ensures
        r is Ok,
        ({
            let after = db::after_writes(t, r->Ok_0@);
            let item = after.queue.last();
            &&& after.queue.len() == t.queue.len() + 1
            &&& params.priority matches Some(p) ==> item.priority == p
            &&& params.cat matches Some(c) ==> item.category@ == c@
            &&& params.password is None ==> item.file_name@ == filename@
            &&& after.nzb_blobs[id] == data@
        }),
{
    law_jobs_are_queued_as_asked(t, Ok(files), job, has_password, job_name, id, now, r);
    let w = r->Ok_0@;
    assert(w =~= Seq::<PlannedWrite>::empty().push(w[0]).push(w[1]));
    db::lemma_after_writes_last(t, Seq::empty().push(w[0]), w[1]);
}

/// A file that cannot be had is refused, with the reason.
pub proof fn law_missing_files_are_refused(
    params: ApiParams,
    error: String,
    a: Result<NewJob, ApiReply>,
    b: Result<NewJob, ApiReply>,
    c: Result<NewJob, ApiReply>,
)
    requires
        call_ensures(handler::handle_addfile, (params, Upload::NoMultipart), a),
        call_ensures(handler::handle_addfile, (params, Upload::NoFile), b),
        call_ensures(handler::handle_addfile, (params, Upload::ReadFailed(error)), c),
    ensures
        a matches Err(ApiReply::Simple(s)) && !s.status && (s.error matches Some(m) && m@
            == "multipart body required for addfile"@),
        b matches Err(ApiReply::Simple(s)) && !s.status && (s.error matches Some(m) && m@
            == "no NZB file found in upload"@),
        c matches Err(ApiReply::Simple(s)) && !s.status && (s.error matches Some(m) && m@
            == "failed to read upload: "@ + error@),
{
}

/// A file from a URL becomes a job with the name that the client gave, or else the one at the
/// end of the URL, and with the category, the priority and the password that it gave.
pub proof fn law_fetched_files_become_jobs(
    params: ApiParams,
    url: &str,
    front: Seq<char>,
    last: Seq<char>,
    data: Vec<u8>,
    r: Result<NewJob, ApiReply>,
)
    requires
        call_ensures(handler::handle_addurl, (params, url, Fetch::Body(data)), r),
        url@ == front + seq!['/'] + last,
        !last.contains('/'),
    ensures
        r is Ok,
        r->Ok_0.data == data,
        params.nzbname matches Some(n) ==> n@.len() > 0 ==> r->Ok_0.filename@ == n@,
        !(params.nzbname matches Some(n) && n@.len() > 0) ==> {
            ||| r->Ok_0.filename@ == last && exists|stem: Seq<char>|
                last == #[trigger] (stem + ".nzb"@)
            ||| r->Ok_0.filename@ == "download.nzb"@ && forall|stem: Seq<char>|
                last != #[trigger] (stem + ".nzb"@)
        },
        params.cat matches Some(c) ==> r->Ok_0.category@ == c@,
        params.cat is None ==> r->Ok_0.category@.len() == 0,
        params.priority matches Some(p) ==> r->Ok_0.priority == p,
        params.priority is None ==> r->Ok_0.priority == 0,
        r->Ok_0.password == params.password,
{
    let at = front.len() as int;
    assert forall|i: int| at < i < url@.len() implies url@[i] != '/' by {
        assert(url@[i] == last[i - at - 1]);
        assert(last.contains(last[i - at - 1]));
    }
    text::lemma_last_position_unique(url@, '/', at);
    assert(text::after_last(url@, '/') =~= last);
    reveal_strlit(".nzb");
    if text::ends_with(last, ".nzb"@) {
        let stem = last.subrange(0, last.len() - 4);
        assert(last =~= stem + ".nzb"@);
    } else {
        assert forall|stem: Seq<char>| last != #[trigger] (stem + ".nzb"@) by {
            let whole = stem + ".nzb"@;
            assert(whole.subrange(whole.len() - 4, whole.len() as int) =~= ".nzb"@);
        }
    }
}

/// A URL that cannot be fetched is refused, with the reason; one that is not given too.
pub proof fn law_unfetched_urls_are_refused(
    params: ApiParams,
    url: &str,
    error: String,
    a: Result<NewJob, ApiReply>,
    b: Result<NewJob, ApiReply>,
    c: Result<NewJob, ApiReply>,
    target: Result<String, ApiReply>,
)
    requires
        call_ensures(handler::handle_addurl, (params, url, Fetch::SendFailed(error)), a),
        call_ensures(handler::handle_addurl, (params, url, Fetch::Refused(error)), b),
        call_ensures(handler::handle_addurl, (params, url, Fetch::ReadFailed(error)), c),
        call_ensures(handler::addurl_target, (&params,), target),
    ensures
        a matches Err(ApiReply::Simple(s)) && !s.status && (s.error matches Some(m) && m@
            == "failed to fetch URL: "@ + error@),
        b matches Err(ApiReply::Simple(s)) && !s.status && (s.error matches Some(m) && m@
            == "HTTP "@ + error@ + " fetching URL"@),
        c matches Err(ApiReply::Simple(s)) && !s.status && (s.error matches Some(m) && m@
            == "failed to read response: "@ + error@),
        params.name matches Some(u) ==> target == Ok::<String, ApiReply>(u),
        params.name is None && params.value is Some ==> target == Ok::<String, ApiReply>(
            params.value->0,
        ),
        params.name is None && params.value is None ==> (target matches Err(ApiReply::Simple(s))
            && !s.status && (s.error matches Some(m) && m@
            == "URL is required (pass as 'name' or 'value' parameter)"@)),
{
}

/// A client that is told that its job was queued gets the job's identifier; one that is told
/// otherwise gets the cause.
pub proof fn law_replies_name_the_job(
    id: u128,
    failure: WriteFailure,
    ok: ApiReply,
    bad: ApiReply,
)
    requires
        call_ensures(handler::added_reply, (id, Ok(())), ok),
        call_ensures(handler::added_reply, (id, Err(failure)), bad),
    ensures
        ok matches ApiReply::Added(a) && a.status && a.nzo_ids@.len() == 1 && ids::uuid_parsed(
            a.nzo_ids@[0]@,
        ) == Some(id),
        bad matches ApiReply::Simple(s) && !s.status && (s.error matches Some(m) && m@ == (
        if failure.index == 0 {
            "failed to store NZB: "@
        } else {
            "failed to enqueue: "@
        }) + failure.error@),
{
    ids::law_uuid_text_parses_back(id);
}

/// A request to delete a queue item, by the identifier that clients are given, deletes the
/// rows with that identifier and no others.
pub proof fn law_queue_deletion_is_exact(
    t: Tables,
    params: &ApiParams,
    id: u128,
    value: String,
    r: QueueAction,
)
    requires
        params.name matches Some(n) && (n@ == "delete"@ || n@ == "purge"@),
        params.value == Some(value),
        value@ == ids::uuid_text(id),
        call_ensures(handler::handle_queue, (params,), r),
    ensures
        r is Delete,
        ({
            let after = db::after_write(t, r->Delete_0);
            &&& forall|q: QueueItem| #[trigger]
                after.queue.contains(q) <==> t.queue.contains(q) && q.id != id
            &&& after.history == t.history
            &&& after.items == t.items
            &&& after.nzb_blobs == t.nzb_blobs
        }),
{
    ids::law_uuid_text_parses_back(id);
    handler::law_deleted_queue_item_is_gone(t, id);
}

/// A request to delete a history item deletes the rows with its identifier and no others,
/// and a request to delete all leaves the history empty.
pub proof fn law_history_deletion_is_exact(
    t: Tables,
    params: &ApiParams,
    id: u128,
    value: String,
    r: HistoryAction,
)
    requires
        params.name matches Some(n) && n@ == "delete"@,
        params.value == Some(value),
        value@ == ids::uuid_text(id) || value@ == "all"@,
        call_ensures(handler::handle_history, (params,), r),
    ensures
        r is Delete,
        ({
            let after = db::after_write(t, r->Delete_0);
            &&& value@ == "all"@ ==> after.history.len() == 0
            &&& value@ != "all"@ ==> forall|h: HistoryItem| #[trigger]
                after.history.contains(h) <==> t.history.contains(h) && h.id != id
            &&& after.queue == t.queue
            &&& after.items == t.items
            &&& after.nzb_blobs == t.nzb_blobs
        }),
{
    ids::law_uuid_text_parses_back(id);
    handler::law_deleted_history_item_is_gone(t, id);
}

/// A request that deletes nothing lists: the queue, or the history, from the entry on and of
/// the length that it asks for, and without that the first fifty entries.
pub proof fn law_requests_list_what_they_ask(
    params: &ApiParams,
    q: QueueAction,
    h: HistoryAction,
)
    requires
        params.name matches Some(n) ==> n@ != "delete"@ && n@ != "purge"@,
        params.nzo_ids is None,
        call_ensures(handler::handle_queue, (params,), q),
        call_ensures(handler::handle_history, (params,), h),
    ensures
        ({
            let offset: i64 = if params.start is Some {
                params.start->0
            } else {
                0
            };
            let limit: i64 = if params.limit is Some {
                params.limit->0
            } else {
                50
            };
            &&& q == QueueAction::List { offset, limit }
            &&& h == HistoryAction::List { offset, limit }
        }),
{
}

/// A request to delete what is no identifier is refused, and one that names nothing deletes
/// nothing.
pub proof fn law_vague_deletions_delete_nothing(
    params: &ApiParams,
    q: QueueAction,
    h: HistoryAction,
)
    requires
        params.name matches Some(n) && n@ == "delete"@,
        params.value matches Some(v) ==> ids::uuid_parsed(v@) is None && v@ != "all"@,
        call_ensures(handler::handle_queue, (params,), q),
        call_ensures(handler::handle_history, (params,), h),
    ensures
        q matches QueueAction::Reply(ApiReply::Simple(s)) && s.status == (params.value is None),
        h matches HistoryAction::Reply(ApiReply::Simple(s)) && s.status == (params.value is None),
        params.value is Some ==> (q->Reply_0->Simple_0.error matches Some(m) && m@
            == "invalid id"@),
        params.value is Some ==> (h->Reply_0->Simple_0.error matches Some(m) && m@
            == "invalid id"@),
{
}

/// A request for the identifier that a client was given looks up that one.
pub proof fn law_requests_find_the_given_id(
    params: &ApiParams,
    id: u128,
    list: String,
    r: HistoryAction,
)
    requires
        !(params.name matches Some(n) && n@ == "delete"@),
        params.nzo_ids == Some(list),
        list@ == ids::uuid_text(id),
        call_ensures(handler::handle_history, (params,), r),
    ensures
        r matches HistoryAction::Find(found) && found@ == seq![id],
{
    handler::law_given_id_is_requested(id);
}

/// A deletion is answered with whether it was done.
pub proof fn law_deletions_are_answered(error: String, ok: ApiReply, bad: ApiReply)
    requires
        call_ensures(handler::deleted_reply, (Ok(()),), ok),
        call_ensures(handler::deleted_reply, (Err(error),), bad),
    ensures
        ok matches ApiReply::Simple(s) && s.status && s.error is None,
        bad matches ApiReply::Simple(s) && !s.status && (s.error matches Some(m) && m@
            == "database error: "@ + error@),
{
}

/// A page of the queue shows each item under the identifier by which it can be deleted, with
/// its name, its category, its size, its priority, and whether it is being processed.
pub proof fn law_queue_pages_show_the_items(
    total: usize,
    items: Vec<QueueItem>,
    status: &QueueStatus,
    r: ApiReply,
    i: int,
)
    requires
        call_ensures(handler::queue_reply, (Ok(total), Ok(items), status), r),
        0 <= i < items@.len(),
    ensures
        r is Queue,
        r->Queue_0.slots@.len() == items@.len(),
        r->Queue_0.noofslots == items@.len(),
        r->Queue_0.noofslots_total == total,
        !r->Queue_0.paused,
        total > 0 ==> r->Queue_0.status@ == "Downloading"@,
        total == 0 ==> r->Queue_0.status@ == "Idle"@,
        r->Queue_0.speed@ == "0"@ && r->Queue_0.kbpersec@ == "0.00"@,
        r->Queue_0.size@ == "0 B"@ && r->Queue_0.sizeleft@ == "0 B"@,
        r->Queue_0.mb@ == "0.00"@ && r->Queue_0.mbleft@ == "0.00"@,
        r->Queue_0.timeleft@ == "0:00:00"@ && r->Queue_0.eta@ == "unknown"@,
        r->Queue_0.diskspace1@ == "999.99"@ && r->Queue_0.diskspacetotal1@ == "999.99"@,
        ({
            let slot = r->Queue_0.slots@[i];
            let item = items@[i];
            &&& ids::uuid_parsed(slot.nzo_id@) == Some(item.id)
            &&& slot.filename@ == item.job_name@
            &&& slot.cat@ == item.category@
            &&& slot.bytes == item.total_segment_bytes
            &&& status.active_ids@.contains(item.id) ==> slot.status@ == "Processing"@
            &&& !status.active_ids@.contains(item.id) ==> slot.status@ == "Queued"@
            &&& item.priority <= 0 ==> slot.priority@ == "Low"@
            &&& item.priority == 1 ==> slot.priority@ == "Normal"@
            &&& item.priority == 2 ==> slot.priority@ == "High"@
            &&& item.priority > 2 ==> slot.priority@ == "Force"@
            &&& slot.mbleft@ == "0.00"@
            &&& slot.percentage@ == "100"@
            &&& slot.timeleft@ == "0:00:00"@
        }),
{
    ids::law_uuid_text_parses_back(items@[i].id);
    assert(handler::shows_item(r->Queue_0.slots@[i], items@[i], status.active_ids@));
}

/// A priority has the name by which the queue shows it.
pub proof fn law_priorities_have_names(priority: i32, r: String)
    requires
        call_ensures(handler::priority_to_string, (priority,), r),
    ensures
        priority <= 0 ==> r@ == "Low"@,
        priority == 1 ==> r@ == "Normal"@,
        priority == 2 ==> r@ == "High"@,
        priority > 2 ==> r@ == "Force"@,
{
}

/// A database that fails is reported, and no page is shown.
pub proof fn law_database_errors_are_reported(
    error: String,
    total: Result<usize, String>,
    items: Result<Vec<QueueItem>, String>,
    history: Result<Vec<HistoryItem>, String>,
    dirs: Vec<Option<DavItem>>,
    status: &QueueStatus,
    a: ApiReply,
    b: ApiReply,
    c: ApiReply,
    d: ApiReply,
)
    requires
        call_ensures(handler::queue_reply, (Err(error), items, status), a),
        call_ensures(handler::queue_reply, (Ok(0usize), Err(error), status), b),
        call_ensures(handler::history_reply, (Err(error), total, dirs), c),
        call_ensures(handler::found_reply, (Err(error), dirs), d),
    ensures
        a matches ApiReply::Simple(s) && !s.status && (s.error matches Some(m) && m@
            == "database error: "@ + error@),
        b matches ApiReply::Simple(s) && !s.status && (s.error matches Some(m) && m@
            == "database error: "@ + error@),
        c matches ApiReply::Simple(s) && !s.status && (s.error matches Some(m) && m@
            == "database error: "@ + error@),
        d matches ApiReply::Simple(s) && !s.status && (s.error matches Some(m) && m@
            == "database error: "@ + error@),
{
}

/// Whether a slot shows a history item: under its identifier, with its name, its category,
/// its size, how and when it ended, and where its files are.
pub open spec fn tells_of(
    slot: crate::sab_api::models::HistorySlot,
    item: HistoryItem,
    dir: Option<DavItem>,
) -> bool {
    &&& ids::uuid_parsed(slot.nzo_id@) == Some(item.id)
    &&& slot.name@ == item.job_name@
    &&& slot.category@ == item.category@
    &&& slot.bytes == item.total_segment_bytes
    &&& slot.download_time == item.download_time_seconds
    &&& slot.completed == item.created_at.secs
    &&& item.download_status == DownloadStatus::Completed ==> slot.status@ == "Completed"@
    &&& item.download_status == DownloadStatus::Failed ==> slot.status@ == "Failed"@
    &&& item.fail_message matches Some(m) ==> slot.fail_message@ == m@
    &&& item.fail_message is None ==> slot.fail_message@.len() == 0
    &&& item.download_dir_id is Some && dir is Some ==> slot.storage@ == dir->0.path@
    &&& item.download_dir_id is None || dir is None ==> slot.storage@.len() == 0
}

/// A page of the history shows each item, and how many there are in all; a request for
/// certain items shows those.
pub proof fn law_history_pages_show_the_items(
    items: Vec<HistoryItem>,
    total: usize,
    dirs: Vec<Option<DavItem>>,
    page: ApiReply,
    found: ApiReply,
    i: int,
)
    requires
        dirs@.len() == items@.len(),
        call_ensures(handler::history_reply, (Ok(items), Ok(total), dirs), page),
        call_ensures(handler::found_reply, (Ok(items), dirs), found),
        0 <= i < items@.len(),
    ensures
        page is History && found is History,
        page->History_0.noofslots == total,
        found->History_0.noofslots == items@.len(),
        page->History_0.slots@.len() == items@.len(),
        found->History_0.slots@.len() == items@.len(),
        tells_of(page->History_0.slots@[i], items@[i], dirs@[i]),
        tells_of(found->History_0.slots@[i], items@[i], dirs@[i]),
{
    ids::law_uuid_text_parses_back(items@[i].id);
    assert(handler::shows_history(page->History_0.slots@[i], items@[i], dirs@[i]));
    assert(handler::shows_history(found->History_0.slots@[i], items@[i], dirs@[i]));
}

/// Looking up one more identifier adds what was found under it, and an error ends the search.
pub proof fn law_lookups_add_what_they_find(
    before: Vec<Result<Option<HistoryItem>, String>>,
    last: Result<Option<HistoryItem>, String>,
    all: Vec<Result<Option<HistoryItem>, String>>,
    a: Result<Vec<HistoryItem>, String>,
    b: Result<Vec<HistoryItem>, String>,
)
    requires
        all@ == before@.push(last),
        call_ensures(handler::found_items, (before,), a),
        call_ensures(handler::found_items, (all,), b),
    ensures
        before@.len() == 0 ==> a is Ok && a->Ok_0@.len() == 0,
        a is Err ==> b is Err && b->Err_0@ == a->Err_0@,
        a is Ok && last is Err ==> b is Err && b->Err_0@ == last->Err_0@,
        a is Ok && last is Ok && last->Ok_0 is Some ==> b is Ok && b->Ok_0@ == a->Ok_0@.push(
            last->Ok_0->0,
        ),
        a is Ok && last is Ok && last->Ok_0 is None ==> b is Ok && b->Ok_0@ == a->Ok_0@,
{
    assert(all@.drop_last() =~= before@);
}

/// A retry is asked for by the identifier that clients are given, as a parameter or in the
/// address.
pub proof fn law_retries_are_named_by_id(
    params: &ApiParams,
    text: &str,
    value: String,
    id: u128,
    a: Result<u128, ApiReply>,
    b: Result<u128, ApiReply>,
)
    requires
        params.value == Some(value),
        value@ == ids::uuid_text(id),
        text@ == ids::uuid_text(id),
        call_ensures(handler::handle_retry, (params,), a),
        call_ensures(handler::rest_retry_history, (text,), b),
    ensures
        a == Ok::<u128, ApiReply>(id),
        b == Ok::<u128, ApiReply>(id),
{
    ids::law_uuid_text_parses_back(id);
}

/// A history item that is tried again stands at the end of the queue under a new identifier,
/// with its names, its category, its size and its NZB file, and is in the history no more.
pub proof fn law_retried_items_are_queued_again(
    t: Tables,
    id: u128,
    h: HistoryItem,
    data: Vec<u8>,
    new_id: u128,
    now: Timestamp,
    r: Result<Vec<PlannedWrite>, ApiReply>,
)
    requires
        h.nzb_blob_id is Some,
        call_ensures(handler::retry_history_item, (id, Ok(Some(h)), Ok(data), new_id, now), r),
    ensures
        r is Ok,
        ({
            let after = db::after_writes(t, r->Ok_0@);
            let item = after.queue.last();
            &&& after.queue.len() == t.queue.len() + 1
            &&& after.queue.drop_last() == t.queue
            &&& item.id == new_id
            &&& item.created_at == now
            &&& item.file_name@ == h.file_name@
            &&& item.job_name@ == h.job_name@
            &&& item.category@ == h.category@
            &&& item.total_segment_bytes == h.total_segment_bytes
            &&& data@.len() <= i64::MAX ==> item.nzb_file_size == data@.len()
            &&& item.priority == 0
            &&& item.post_processing == -1
            &&& item.pause_until is None
            &&& after.nzb_blobs == t.nzb_blobs.insert(new_id, data@)
            &&& forall|x: HistoryItem| #[trigger]
                after.history.contains(x) <==> t.history.contains(x) && x.id != id
            &&& after.items == t.items
            &&& r->Ok_0@[0].required && r->Ok_0@[1].required && !r->Ok_0@[2].required
        }),
{
    let w = r->Ok_0@;
    assert(w =~= Seq::<PlannedWrite>::empty().push(w[0]).push(w[1]).push(w[2]));
    db::lemma_after_writes_last(t, Seq::empty().push(w[0]).push(w[1]), w[2]);
    db::lemma_after_writes_last(t, Seq::empty().push(w[0]), w[1]);
    db::lemma_after_writes_last(t, Seq::empty(), w[0]);
    let keep = |x: HistoryItem| x.id != id;
    db::lemma_filter_contains(t.history, keep);
    let after = db::after_writes(t, w);
    assert(after.history == t.history.filter(keep));
    assert(after.queue.drop_last() =~= t.queue);
    assert(data.len() == data@.len());
}

/// What cannot be tried again is refused: an item that is not there, one without an NZB file,
/// and one whose NZB file is gone.
pub proof fn law_hopeless_retries_are_refused(
    id: u128,
    h: HistoryItem,
    error: String,
    blob: Result<Vec<u8>, String>,
    new_id: u128,
    now: Timestamp,
    a: Result<Vec<PlannedWrite>, ApiReply>,
    b: Result<Vec<PlannedWrite>, ApiReply>,
    c: Result<Vec<PlannedWrite>, ApiReply>,
    d: Result<Vec<PlannedWrite>, ApiReply>,
)
    requires
        call_ensures(handler::retry_history_item, (id, Ok(Some(h)), blob, new_id, now), d),
        call_ensures(handler::retry_history_item, (id, Ok(None), blob, new_id, now), a),
        call_ensures(handler::retry_history_item, (id, Ok(Some(h)), Err(error), new_id, now), b),
        call_ensures(handler::retry_history_item, (id, Err(error), blob, new_id, now), c),
    ensures
        a matches Err(ApiReply::Simple(s)) && !s.status && (s.error matches Some(m) && m@
            == "history item not found"@),
        h.nzb_blob_id is Some ==> (b matches Err(ApiReply::Simple(s)) && !s.status && (
        s.error matches Some(m) && m@
            == "NZB blob has been cleaned up and is no longer available"@)),
        h.nzb_blob_id is None ==> (d matches Err(ApiReply::Simple(s)) && !s.status && (
        s.error matches Some(m) && m@ == "NZB blob not available for this history item"@)),
        c matches Err(ApiReply::Simple(s)) && !s.status && (s.error matches Some(m) && m@
            == "database error: "@ + error@),
{
}

/// A retry of what is no identifier is refused.
pub proof fn law_nameless_retries_are_refused(
    params: &ApiParams,
    text: &str,
    a: Result<u128, ApiReply>,
    b: Result<u128, ApiReply>,
)
    requires
        ids::uuid_parsed(text@) is None,
        params.value matches Some(v) ==> ids::uuid_parsed(v@) is None,
        call_ensures(handler::handle_retry, (params,), a),
        call_ensures(handler::rest_retry_history, (text,), b),
    ensures
        b matches Err(ApiReply::Simple(s)) && !s.status && (s.error matches Some(m) && m@
            == "invalid id"@),
        params.value is Some ==> (a matches Err(ApiReply::Simple(s)) && !s.status && (
        s.error matches Some(m) && m@ == "invalid id"@)),
        params.value is None ==> (a matches Err(ApiReply::Simple(s)) && !s.status && (
        s.error matches Some(m) && m@ == "value parameter (nzo_id) is required"@)),
{
}

/// Whether two configurations say the same.
pub open spec fn same_config(a: ConfigData, b: ConfigData) -> bool {
    &&& a.misc.port@ == b.misc.port@
    &&& a.misc.host@ == b.misc.host@
    &&& a.misc.api_key@ == b.misc.api_key@
    &&& a.misc.complete_dir@ == b.misc.complete_dir@
    &&& a.misc.download_dir@ == b.misc.download_dir@
    &&& a.misc.history_retention@ == b.misc.history_retention@
    &&& a.categories@.len() == b.categories@.len()
    &&& forall|i: int|
        0 <= i < a.categories@.len() ==> (#[trigger] a.categories@[i]).name@
            == b.categories@[i].name@
    &&& a.servers@.len() == b.servers@.len()
}

/// Whether two states of the server say the same.
pub open spec fn same_status(a: FullStatus, b: FullStatus) -> bool {
    &&& a.version@ == b.version@
    &&& a.paused == b.paused
    &&& a.noofslots == b.noofslots
    &&& a.noofslots_total == b.noofslots_total
    &&& a.kbpersec@ == b.kbpersec@
    &&& a.mb@ == b.mb@
    &&& a.mbleft@ == b.mbleft@
    &&& a.timeleft@ == b.timeleft@
    &&& a.diskspace1@ == b.diskspace1@
    &&& a.diskspacetotal1@ == b.diskspacetotal1@
}

/// A mode that asks for the status or for the configuration gets the one that the server has.
pub proof fn law_modes_reply_with_what_they_name(
    params: &ApiParams,
    categories: Vec<String>,
    r: Dispatch,
    status: FullStatus,
    config: ConfigData,
)
    requires
        call_ensures(handler::sab_api, (params, categories), r),
        call_ensures(handler::full_status, (), status),
        call_ensures(handler::config_data, (&categories,), config),
    ensures
        r matches Dispatch::Reply(ApiReply::Status(s)) ==> same_status(s, status),
        r matches Dispatch::Reply(ApiReply::Config(c)) ==> same_config(c, config),
{
    if let Dispatch::Reply(ApiReply::Config(c)) = r {
        assert forall|i: int| 0 <= i < c.categories@.len() implies (
        #[trigger] c.categories@[i]).name@ == config.categories@[i].name@ by {
            assert(handler::is_category(config.categories@[i], categories@[i]@));
        }
    }
}

/// Each mode of the protocol is answered as that mode, and a mode that is none is refused by
/// its name.
pub proof fn law_modes_are_told_apart(params: &ApiParams, categories: Vec<String>, r: Dispatch)
    requires
        call_ensures(handler::sab_api, (params, categories), r),
    ensures
        params.mode@ == "addfile"@ ==> r == Dispatch::Handle(Mode::AddFile),
        params.mode@ == "addurl"@ ==> r == Dispatch::Handle(Mode::AddUrl),
        params.mode@ == "queue"@ ==> r == Dispatch::Handle(Mode::Queue),
        params.mode@ == "history"@ ==> r == Dispatch::Handle(Mode::History),
        params.mode@ == "retry"@ ==> r == Dispatch::Handle(Mode::Retry),
        params.mode@ == "version"@ ==> (r matches Dispatch::Reply(ApiReply::Version(v))
            && v.version@ == "4.0.0"@),
        params.mode@ == "status"@ ==> r matches Dispatch::Reply(ApiReply::Status(_)),
        params.mode@ == "fullstatus"@ ==> r matches Dispatch::Reply(ApiReply::Status(_)),
        params.mode@ == "get_config"@ ==> r matches Dispatch::Reply(ApiReply::Config(_)),
        params.mode@ == "get_cats"@ ==> (r matches Dispatch::Reply(ApiReply::Categories(c))
            && c.categories == categories),
        r matches Dispatch::Reply(ApiReply::Simple(s)) ==> !s.status && (s.error matches Some(m)
            && m@ == "unknown mode: "@ + params.mode@),
{
    reveal_strlit("addfile");
    reveal_strlit("addurl");
    reveal_strlit("queue");
    reveal_strlit("history");
    reveal_strlit("retry");
    reveal_strlit("version");
    reveal_strlit("status");
    reveal_strlit("fullstatus");
    reveal_strlit("get_config");
    reveal_strlit("get_cats");
    let m = params.mode@;
    // The lengths and first letters tell the modes apart.
    assert("addfile"@[0] == 'a' && "addfile"@.len() == 7);
    assert("addurl"@[0] == 'a' && "addurl"@.len() == 6);
    assert("queue"@[0] == 'q' && "queue"@.len() == 5);
    assert("history"@[0] == 'h' && "history"@.len() == 7);
    assert("retry"@[0] == 'r' && "retry"@.len() == 5);
    assert("version"@[0] == 'v' && "version"@.len() == 7);
    assert("status"@[0] == 's' && "status"@.len() == 6);
    assert("fullstatus"@[0] == 'f' && "fullstatus"@.len() == 10);
    assert("get_config"@[0] == 'g' && "get_config"@.len() == 10);
    assert("get_cats"@[0] == 'g' && "get_cats"@.len() == 8);
}

/// The configuration lists the categories under their names, in their order, and says that
/// files are where the pipeline puts them.
pub proof fn law_configuration_lists_the_categories(categories: &Vec<String>, r: ConfigData)
    requires
        call_ensures(handler::config_data, (categories,), r),
    ensures
        r.categories@.len() == categories@.len(),
        forall|i: int|
            0 <= i < categories@.len() ==> (#[trigger] r.categories@[i]).name@ == categories@[i]@
                && r.categories@[i].order == 0 && r.categories@[i].priority == 0
                && r.categories@[i].dir@ == ""@ && r.categories@[i].newzbin@ == ""@,
        r.misc.complete_dir@ + "/"@ == queue_item_processor::CONTENT_ROOT@,
        r.misc.download_dir@ == r.misc.complete_dir@,
        r.misc.port@ == "8080"@,
        r.misc.host@ == "0.0.0.0"@,
        r.misc.api_key@ == ""@,
        r.misc.dirscan_dir@ == ""@,
        r.misc.history_retention@ == "all"@,
        r.misc.cache_limit@ == "512M"@,
        r.misc.bandwidth_max@ == ""@,
        r.misc.quota_size@ == ""@ && r.misc.quota_day@ == ""@ && r.misc.quota_period@ == "m"@,
        r.misc.pause_on_post_processing == 0 && r.misc.pre_check == 0 && r.misc.refresh_rate == 1,
        r.servers@.len() == 0,
{
    reveal_strlit("/content");
    reveal_strlit("/content/");
    reveal_strlit("/");
    assert("/content"@ + "/"@ =~= "/content/"@);
}

/// The status of the server says what a page of an empty queue says: nothing is left, nothing
/// is waited for, and there is room on the disk.
pub proof fn law_status_is_that_of_an_empty_queue(
    status: &QueueStatus,
    items: Vec<QueueItem>,
    s: FullStatus,
    page: ApiReply,
)
    requires
        items@.len() == 0,
        call_ensures(handler::full_status, (), s),
        call_ensures(handler::queue_reply, (Ok(0usize), Ok(items), status), page),
    ensures
        page is Queue,
        s.noofslots == page->Queue_0.noofslots,
        s.noofslots_total == page->Queue_0.noofslots_total,
        s.paused == page->Queue_0.paused,
        s.kbpersec@ == page->Queue_0.kbpersec@ && s.kbpersec@ == "0.00"@,
        s.mb@ == page->Queue_0.mb@ && s.mb@ == "0.00"@,
        s.mbleft@ == page->Queue_0.mbleft@ && s.mbleft@ == "0.00"@,
        s.timeleft@ == page->Queue_0.timeleft@ && s.timeleft@ == "0:00:00"@,
        s.eta@ == page->Queue_0.eta@ && s.eta@ == "unknown"@,
        s.diskspace1@ == page->Queue_0.diskspace1@ && s.diskspace1@ == "999.99"@,
        s.diskspacetotal1@ == page->Queue_0.diskspacetotal1@ && s.diskspacetotal1@ == "999.99"@,
        s.diskspace2@ == s.diskspace1@ && s.diskspacetotal2@ == s.diskspacetotal1@,
        page->Queue_0.size@ == "0 B"@ && page->Queue_0.sizeleft@ == "0 B"@,
        page->Queue_0.speed@ == "0"@,
        s.version@ == "4.0.0"@,
        s.pause_int@ == "0"@ && s.have_warnings@ == "0"@ && s.speed@ == "0 "@,
        s.cache_art@ == "0"@ && s.cache_size@ == "0 B"@,
        s.loadavg@ == ""@ && s.quota@ == ""@ && s.left_quota@ == ""@ && s.speedlimit@ == ""@,
        s.finishaction is None && s.servers@.len() == 0,
{
}

/// An answer either says that a request was carried out or why not, never both.
pub proof fn law_answers_accept_or_refuse(
    message: &str,
    detail: &str,
    yes: SimpleResponse,
    no: SimpleResponse,
    why: SimpleResponse,
)
    requires
        call_ensures(SimpleResponse::accepted, (), yes),
        call_ensures(SimpleResponse::refused, (message,), no),
        call_ensures(SimpleResponse::failed, (message, detail), why),
    ensures
        yes.status && yes.error is None,
        !no.status && (no.error matches Some(m) && m@ == message@),
        !why.status && (why.error matches Some(m) && m@ == message@ + detail@),
{
}

/// The NZB file of an upload is looked for in the fields that clients use for it.
pub proof fn law_nzb_fields_are_known(name: &str, r: bool)
    requires
        call_ensures(handler::is_nzb_field, (name,), r),
    ensures
        r <==> name@ == "nzbfile"@ || name@ == "name"@,
{
}

/// The name under which a job is stored is the one that it came with, with the password put
/// in before the extension where it came with one apart.
pub proof fn law_stored_names_hold_the_password(
    filename: &str,
    base: Seq<char>,
    password: Option<String>,
    has_password: bool,
    r: String,
)
    requires
        filename@ == base + ".nzb"@ || filename@ == base,
        forall|front: Seq<char>| base != #[trigger] (front + ".nzb"@),
        call_ensures(handler::stored_filename, (filename, &password, has_password), r),
    ensures
        has_password || password is None ==> r@ == filename@,
        password matches Some(p) ==> p@.len() == 0 ==> r@ == filename@,
        password matches Some(p) ==> p@.len() > 0 && !has_password ==> r@ == base + " {{"@ + p@
            + "}}"@ + ".nzb"@,
{
    reveal_strlit(".nzb");
    reveal_strlit("}}.nzb");
    reveal_strlit("}}");
    if text::ends_with(base, ".nzb"@) {
        let front = base.subrange(0, base.len() - 4);
        assert(base =~= front + ".nzb"@);
    }
    lemma_base_name(base, ".nzb"@);
    if let Some(p) = password {
        assert("}}.nzb"@ =~= "}}"@ + ".nzb"@);
        assert(base + " {{"@ + p@ + "}}.nzb"@ =~= base + " {{"@ + p@ + "}}"@ + ".nzb"@);
    }
}

/// A job whose NZB file can be given to the parser is queued alike whether that was tested
/// before or not.
pub proof fn law_tested_jobs_are_queued_alike(
    t: Tables,
    job: NewJob,
    has_password: bool,
    job_name: String,
    id: u128,
    now: Timestamp,
    a: Result<Vec<PlannedWrite>, ApiReply>,
    b: Result<Vec<PlannedWrite>, ApiReply>,
)
    requires
        nzb::is_readable(job.data@),
        call_ensures(handler::enqueue_nzb, (job, has_password, job_name, id, now), a),
        call_ensures(handler::enqueue_if_readable, (job, has_password, job_name, id, now), b),
    ensures
        a is Ok <==> b is Ok,
        a is Ok ==> {
            let x = db::after_writes(t, a->Ok_0@).queue.last();
            let y = db::after_writes(t, b->Ok_0@).queue.last();
            &&& x.id == id && y.id == id
            &&& x.priority == job.priority && y.priority == job.priority
            &&& x.category@ == job.category@ && y.category@ == job.category@
            &&& x.job_name@ == job_name@ && y.job_name@ == job_name@
            &&& x.file_name@ == y.file_name@
            &&& x.nzb_file_size == y.nzb_file_size
            &&& x.total_segment_bytes == y.total_segment_bytes
            &&& x.created_at == now && y.created_at == now
            &&& db::after_writes(t, a->Ok_0@).nzb_blobs == t.nzb_blobs.insert(id, job.data@)
        },
        a is Err ==> (a->Err_0 matches ApiReply::Simple(s) && !s.status && (s.error matches Some(m)
            && m@ == "invalid NZB: "@ + nzb::nzb_parsed(job.data@)->Err_0)),
{
    if a is Ok {
        let w = a->Ok_0@;
        assert(w =~= Seq::<PlannedWrite>::empty().push(w[0]).push(w[1]));
        db::lemma_after_writes_last(t, Seq::empty().push(w[0]), w[1]);
        db::lemma_after_writes_last(t, Seq::empty(), w[0]);
        let v = b->Ok_0@;
        assert(v =~= Seq::<PlannedWrite>::empty().push(v[0]).push(v[1]));
        db::lemma_after_writes_last(t, Seq::empty().push(v[0]), v[1]);
    }
}

/// Data that the parser cannot be given are refused, and queue nothing.
pub proof fn law_unreadable_jobs_are_refused(
    job: NewJob,
    has_password: bool,
    job_name: String,
    id: u128,
    now: Timestamp,
    data: &[u8],
    readable: bool,
    r: Result<Vec<PlannedWrite>, ApiReply>,
)
    requires
        data@ == job.data@,
        call_ensures(nzb::nzb_is_readable, (data,), readable),
        !readable,
        call_ensures(handler::enqueue_if_readable, (job, has_password, job_name, id, now), r),
    ensures
        r matches Err(ApiReply::Simple(s)) && !s.status && (s.error matches Some(m) && m@
            == "invalid NZB: "@ + nzb::UNREADABLE@),
{
}

/// A list with one word more holds the identifier that the word is, behind those before it,
/// and a word that is none adds none.
pub proof fn law_lists_of_ids_grow(
    list: &str,
    longer: &str,
    word: Seq<char>,
    a: Vec<u128>,
    b: Vec<u128>,
)
    requires
        !word.contains(','),
        longer@ == list@ + seq![','] + word,
        call_ensures(handler::requested_ids, (list,), a),
        call_ensures(handler::requested_ids, (longer,), b),
    ensures
        ids::uuid_parsed(word) matches Some(id) ==> b@ == a@.push(id),
        ids::uuid_parsed(word) is None ==> b@ == a@,
{
    let s = longer@;
    let at = list@.len() as int;
    assert(s[at] == ',');
    assert forall|i: int| at < i < s.len() implies s[i] != ',' by {
        assert(s[i] == word[i - at - 1]);
        assert(word.contains(word[i - at - 1]));
    }
    text::lemma_last_position_unique(s, ',', at);
    assert(s.subrange(0, at) =~= list@);
    assert(s.subrange(at + 1, s.len() as int) =~= word);
    let words = text::pieces(s, ',');
    assert(words == text::pieces(list@, ',').push(word));
    assert(words.drop_last() =~= text::pieces(list@, ','));
}

/// A list of one word holds the identifier that the word is, or none.
pub proof fn law_single_words_are_lists(list: &str, r: Vec<u128>)
    requires
        !list@.contains(','),
        call_ensures(handler::requested_ids, (list,), r),
    ensures
        ids::uuid_parsed(list@) matches Some(id) ==> r@ == seq![id],
        ids::uuid_parsed(list@) is None ==> r@.len() == 0,
{
    let s = list@;
    assert forall|i: int| -1 < i < s.len() implies s[i] != ',' by {
        assert(s.contains(s[i]));
    }
    text::lemma_last_position_unique(s, ',', -1);
    let words = text::pieces(s, ',');
    assert(words == seq![s]);
    assert(words.drop_last() =~= Seq::empty());
    reveal_with_fuel(handler::ids_among, 2);
    if let Some(id) = ids::uuid_parsed(s) {
        assert(r@ =~= seq![id]);
    }
}

} // verus!
