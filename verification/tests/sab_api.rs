use nzbdav::db::{DbWrite, WriteFailure};
use nzbdav::models::{DavItem, DownloadStatus, HistoryItem, ItemSubType, QueueItem, Timestamp};
use nzbdav::nzb::{nzb_is_readable, NzbFile, NzbJob};
use nzbdav::queue_manager::QueueStatus;
use nzbdav::sab_api::handler::{
    added_reply, addurl_target, deleted_reply, enqueue_if_readable, enqueue_nzb,
    enqueue_parsed, found_items,
    found_reply, handle_addfile, handle_addurl, handle_history, handle_queue, handle_retry,
    history_reply, is_nzb_field, priority_to_string, queue_reply, requested_ids,
    rest_retry_history, retry_history_item, sab_api, stored_filename, ApiParams, Dispatch, Fetch,
    HistoryAction, Mode, NewJob, QueueAction, Upload,
};
use nzbdav::sab_api::models::{ApiReply, SimpleResponse};
use nzbdav::seed::root_item;

const NOW: Timestamp = Timestamp { secs: 1_700_000_000, nanos: 0 };

const RANDOM_ID: u128 = 0x0123_4567_89ab_4cde_8f01_2345_6789_abcd;

const NZB: &str = "<?xml version=\"1.0\" encoding=\"UTF-8\"?>
<nzb xmlns=\"http://www.newzbin.com/DTD/2003/nzb\">
  <head><meta type=\"password\">secret</meta></head>
  <file poster=\"p@x\" date=\"100\" subject=\"&quot;film.mkv&quot; yEnc (1/2)\">
    <groups><group>alt.test</group></groups>
    <segments>
      <segment number=\"1\" bytes=\"700\">one@x</segment>
      <segment number=\"2\" bytes=\"300\">two@x</segment>
    </segments>
  </file>
</nzb>";

fn params(mode: &str) -> ApiParams {
    ApiParams {
        mode: mode.to_string(),
        apikey: None,
        output: None,
        name: None,
        value: None,
        cat: None,
        priority: None,
        password: None,
        start: None,
        limit: None,
        del_files: None,
        nzbname: None,
        nzo_ids: None,
    }
}

fn reply(mode: &str) -> ApiReply {
    match sab_api(&params(mode), vec![]) {
        Dispatch::Reply(r) => r,
        other => panic!("unexpected dispatch {:?}", other),
    }
}

fn error_of(r: &ApiReply) -> String {
    match r {
        ApiReply::Simple(s) => {
            assert!(!s.status);
            s.error.clone().unwrap()
        }
        other => panic!("unexpected reply {:?}", other),
    }
}

fn is_accepted(r: &ApiReply) -> bool {
    matches!(r, ApiReply::Simple(SimpleResponse { status: true, error: None }))
}

fn uuid_text(id: u128) -> String {
    uuid::Uuid::from_u128(id).to_string()
}

fn history_item(id: u128, name: &str) -> HistoryItem {
    HistoryItem {
        id,
        created_at: NOW,
        file_name: format!("{}.nzb", name),
        job_name: name.to_string(),
        category: "tv".to_string(),
        download_status: DownloadStatus::Completed,
        total_segment_bytes: 4000,
        download_time_seconds: 0,
        fail_message: None,
        download_dir_id: None,
        nzb_blob_id: Some(id),
    }
}

fn queue_item(id: u128, priority: i32) -> QueueItem {
    QueueItem {
        id,
        created_at: NOW,
        file_name: "a.nzb".to_string(),
        job_name: "a".to_string(),
        nzb_file_size: 10,
        total_segment_bytes: 3_145_728,
        category: "movies".to_string(),
        priority,
        post_processing: -1,
        pause_until: None,
    }
}

fn directory(path: &str) -> DavItem {
    root_item("x", path, ItemSubType::Directory, None, NOW)
}

#[test]
fn test_version() {
    match reply("version") {
        ApiReply::Version(v) => assert_eq!(v.version, "4.0.0"),
        other => panic!("unexpected reply {:?}", other),
    }
}

#[test]
fn test_status() {
    match reply("status") {
        ApiReply::Status(s) => {
            assert_eq!(s.version, "4.0.0");
            assert_eq!(s.paused, false);
            assert_eq!(s.speed, "0 ");
            assert_eq!(s.diskspacetotal2, "999.99");
            assert_eq!(s.finishaction, None);
            assert!(s.servers.is_empty());
        }
        other => panic!("unexpected reply {:?}", other),
    }
}

#[test]
fn test_fullstatus() {
    match reply("fullstatus") {
        ApiReply::Status(s) => assert_eq!(s.version, "4.0.0"),
        other => panic!("unexpected reply {:?}", other),
    }
}

#[test]
fn test_get_cats_empty() {
    match reply("get_cats") {
        ApiReply::Categories(c) => assert!(c.categories.is_empty()),
        other => panic!("unexpected reply {:?}", other),
    }
}

#[test]
fn test_queue_empty() {
    assert_eq!(sab_api(&params("queue"), vec![]), Dispatch::Handle(Mode::Queue));
    assert_eq!(handle_queue(&params("queue")), QueueAction::List { offset: 0, limit: 50 });
    match queue_reply(Ok(0), Ok(vec![]), &QueueStatus::default()) {
        ApiReply::Queue(q) => {
            assert_eq!(q.noofslots, 0);
            assert_eq!(q.noofslots_total, 0);
            assert_eq!(q.status, "Idle");
            assert!(q.slots.is_empty());
        }
        other => panic!("unexpected reply {:?}", other),
    }
}

#[test]
fn test_history_empty() {
    assert_eq!(sab_api(&params("history"), vec![]), Dispatch::Handle(Mode::History));
    assert_eq!(handle_history(&params("history")), HistoryAction::List { offset: 0, limit: 50 });
    match history_reply(Ok(vec![]), Ok(0), vec![]) {
        ApiReply::History(h) => {
            assert_eq!(h.noofslots, 0);
            assert!(h.slots.is_empty());
        }
        other => panic!("unexpected reply {:?}", other),
    }
}

#[test]
fn test_unknown_mode() {
    assert!(error_of(&reply("bogus")).contains("unknown mode"));
    assert_eq!(error_of(&reply("bogus")), "unknown mode: bogus");
}

#[test]
fn test_addurl_missing_url() {
    assert_eq!(sab_api(&params("addurl"), vec![]), Dispatch::Handle(Mode::AddUrl));
    let r = addurl_target(&params("addurl")).unwrap_err();
    assert!(error_of(&r).contains("URL is required"));
}

#[test]
fn test_get_config() {
    match sab_api(&params("get_config"), vec!["tv".to_string(), "movies".to_string()]) {
        Dispatch::Reply(ApiReply::Config(c)) => {
            assert_eq!(c.misc.complete_dir, "/content");
            assert_eq!(c.misc.refresh_rate, 1);
            assert_eq!(c.categories.len(), 2);
            assert_eq!(c.categories[1].name, "movies");
            assert!(c.servers.is_empty());
        }
        other => panic!("unexpected dispatch {:?}", other),
    }
}

#[test]
fn test_addfile_no_multipart() {
    assert_eq!(sab_api(&params("addfile"), vec![]), Dispatch::Handle(Mode::AddFile));
    let r = handle_addfile(params("addfile"), Upload::NoMultipart).unwrap_err();
    assert!(error_of(&r).contains("multipart"));
}

#[test]
fn test_priority_to_string_values() {
    assert_eq!(priority_to_string(-1), "Low");
    assert_eq!(priority_to_string(0), "Low");
    assert_eq!(priority_to_string(1), "Normal");
    assert_eq!(priority_to_string(2), "High");
    assert_eq!(priority_to_string(3), "Force");
    assert_eq!(priority_to_string(100), "Force");
}

#[test]
fn test_queue_delete_nonexistent_returns_success() {
    let mut p = params("queue");
    p.name = Some("delete".to_string());
    p.value = Some(uuid_text(RANDOM_ID));
    assert_eq!(handle_queue(&p), QueueAction::Delete(DbWrite::DeleteQueueItem(RANDOM_ID)));
    assert!(is_accepted(&deleted_reply(Ok(()))));
    p.name = Some("purge".to_string());
    p.value = None;
    assert!(matches!(handle_queue(&p), QueueAction::Reply(r) if is_accepted(&r)));
}

#[test]
fn test_queue_delete_invalid_uuid_returns_json_error() {
    let mut p = params("queue");
    p.name = Some("delete".to_string());
    p.value = Some("not-a-uuid".to_string());
    match handle_queue(&p) {
        QueueAction::Reply(r) => assert!(error_of(&r).contains("invalid id")),
        other => panic!("unexpected action {:?}", other),
    }
}

#[test]
fn test_history_delete_nonexistent_returns_success() {
    let mut p = params("history");
    p.name = Some("delete".to_string());
    p.value = Some(uuid_text(RANDOM_ID));
    assert_eq!(handle_history(&p), HistoryAction::Delete(DbWrite::DeleteHistoryItem(RANDOM_ID)));
    assert!(is_accepted(&deleted_reply(Ok(()))));
    p.value = Some("all".to_string());
    assert_eq!(handle_history(&p), HistoryAction::Delete(DbWrite::ClearHistory));
    p.value = None;
    assert!(matches!(handle_history(&p), HistoryAction::Reply(r) if is_accepted(&r)));
    let failed = deleted_reply(Err("locked".to_string()));
    assert_eq!(error_of(&failed), "database error: locked");
}

#[test]
fn test_history_delete_invalid_uuid_returns_json_error() {
    let mut p = params("history");
    p.name = Some("delete".to_string());
    p.value = Some("not-a-uuid".to_string());
    match handle_history(&p) {
        HistoryAction::Reply(r) => assert!(error_of(&r).contains("invalid id")),
        other => panic!("unexpected action {:?}", other),
    }
}

#[test]
fn test_retry_missing_value() {
    let r = handle_retry(&params("retry")).unwrap_err();
    assert!(error_of(&r).contains("value"));
}

#[test]
fn test_retry_invalid_uuid() {
    let mut p = params("retry");
    p.value = Some("garbage".to_string());
    assert!(error_of(&handle_retry(&p).unwrap_err()).contains("invalid id"));
    assert!(error_of(&rest_retry_history("garbage").unwrap_err()).contains("invalid id"));
    assert_eq!(rest_retry_history(&uuid_text(RANDOM_ID)), Ok(RANDOM_ID));
}

#[test]
fn test_retry_nonexistent_history_item() {
    let mut p = params("retry");
    p.value = Some(uuid_text(RANDOM_ID));
    let id = handle_retry(&p).unwrap();
    let r = retry_history_item(id, Ok(None), Ok(vec![]), 1, NOW).unwrap_err();
    assert!(error_of(&r).contains("not found"));
}

#[test]
fn retries_queue_the_job_again() {
    let h = history_item(7, "job");
    let writes = retry_history_item(7, Ok(Some(h.clone())), Ok(vec![1, 2, 3]), 9, NOW).unwrap();
    assert_eq!(writes.len(), 3);
    assert_eq!(writes[0].write, DbWrite::PutNzbBlob { id: 9, data: vec![1, 2, 3] });
    match &writes[1].write {
        DbWrite::InsertQueueItem(q) => {
            assert_eq!(q.id, 9);
            assert_eq!(q.file_name, h.file_name);
            assert_eq!(q.job_name, h.job_name);
            assert_eq!(q.nzb_file_size, 3);
            assert_eq!(q.total_segment_bytes, 4000);
            assert_eq!(q.priority, 0);
            assert_eq!(q.post_processing, -1);
        }
        other => panic!("unexpected write {:?}", other),
    }
    assert_eq!(writes[2].write, DbWrite::DeleteHistoryItem(7));
    assert!(!writes[2].required);

    let gone = retry_history_item(7, Ok(Some(h.clone())), Err("x".to_string()), 9, NOW);
    assert_eq!(
        error_of(&gone.unwrap_err()),
        "NZB blob has been cleaned up and is no longer available"
    );
    let mut bare = h;
    bare.nzb_blob_id = None;
    let none = retry_history_item(7, Ok(Some(bare)), Ok(vec![]), 9, NOW);
    assert_eq!(error_of(&none.unwrap_err()), "NZB blob not available for this history item");
    let failed = retry_history_item(7, Err("locked".to_string()), Ok(vec![]), 9, NOW);
    assert_eq!(error_of(&failed.unwrap_err()), "database error: locked");
}

#[test]
fn uploads_become_jobs() {
    assert!(is_nzb_field("nzbfile"));
    assert!(is_nzb_field("name"));
    assert!(!is_nzb_field("cat"));
    let mut p = params("addfile");
    p.cat = Some("tv".to_string());
    p.priority = Some(2);
    p.password = Some("pw".to_string());
    let job = handle_addfile(p, Upload::File { filename: None, data: vec![5] }).unwrap();
    assert_eq!(job.filename, "unknown.nzb");
    assert_eq!(job.category, "tv");
    assert_eq!(job.priority, 2);
    assert_eq!(job.password, Some("pw".to_string()));
    let r = handle_addfile(params("addfile"), Upload::NoFile).unwrap_err();
    assert_eq!(error_of(&r), "no NZB file found in upload");
    let r = handle_addfile(params("addfile"), Upload::ReadFailed("eof".to_string())).unwrap_err();
    assert_eq!(error_of(&r), "failed to read upload: eof");
}

#[test]
fn urls_name_their_files() {
    let mut p = params("addurl");
    p.value = Some("http://host/v".to_string());
    assert_eq!(addurl_target(&p), Ok("http://host/v".to_string()));
    p.name = Some("http://host/n".to_string());
    assert_eq!(addurl_target(&p), Ok("http://host/n".to_string()));

    let job = handle_addurl(p.clone(), "http://host/a/film.nzb", Fetch::Body(vec![1])).unwrap();
    assert_eq!(job.filename, "film.nzb");
    let job = handle_addurl(p.clone(), "http://host/get?id=7", Fetch::Body(vec![1])).unwrap();
    assert_eq!(job.filename, "download.nzb");
    p.nzbname = Some("".to_string());
    let job = handle_addurl(p.clone(), "http://host/film.nzb", Fetch::Body(vec![1])).unwrap();
    assert_eq!(job.filename, "film.nzb");
    p.nzbname = Some("Expected.Folder".to_string());
    let job = handle_addurl(p.clone(), "http://host/film.nzb", Fetch::Body(vec![1])).unwrap();
    assert_eq!(job.filename, "Expected.Folder");
    assert_eq!(job.priority, 0);
    assert_eq!(job.category, "");

    let url = "http://host/x";
    let r = handle_addurl(p.clone(), url, Fetch::SendFailed("dns".to_string())).unwrap_err();
    assert_eq!(error_of(&r), "failed to fetch URL: dns");
    let r = handle_addurl(p.clone(), url, Fetch::Refused("404 Not Found".to_string()));
    assert_eq!(error_of(&r.unwrap_err()), "HTTP 404 Not Found fetching URL");
    let r = handle_addurl(p, url, Fetch::ReadFailed("eof".to_string())).unwrap_err();
    assert_eq!(error_of(&r), "failed to read response: eof");
}

#[test]
fn passwords_are_put_in_once() {
    let pw = Some("s3cret".to_string());
    assert_eq!(stored_filename("film.nzb", &pw, false), "film {{s3cret}}.nzb");
    assert_eq!(stored_filename("film.nzb.nzb", &pw, false), "film {{s3cret}}.nzb");
    assert_eq!(stored_filename("film", &pw, false), "film {{s3cret}}.nzb");
    assert_eq!(stored_filename("film {{x}}.nzb", &pw, true), "film {{x}}.nzb");
    assert_eq!(stored_filename("film.nzb", &Some("".to_string()), false), "film.nzb");
    assert_eq!(stored_filename("film.nzb", &None, false), "film.nzb");
}

fn new_job(data: &[u8]) -> NewJob {
    NewJob {
        filename: "film.nzb".to_string(),
        data: data.to_vec(),
        category: "movies".to_string(),
        priority: 1,
        password: None,
    }
}

#[test]
fn test_enqueue_nzb_stores_job_name_from_filename() {
    assert!(nzb_is_readable(NZB.as_bytes()));
    let writes = enqueue_nzb(
        new_job(NZB.as_bytes()),
        false,
        "film".to_string(),
        RANDOM_ID,
        NOW,
    )
    .unwrap();
    assert_eq!(writes.len(), 2);
    assert_eq!(
        writes[0].write,
        DbWrite::PutNzbBlob { id: RANDOM_ID, data: NZB.as_bytes().to_vec() }
    );
    match &writes[1].write {
        DbWrite::InsertQueueItem(q) => {
            assert_eq!(q.file_name, "film.nzb");
            assert_eq!(q.job_name, "film");
            assert_eq!(q.total_segment_bytes, 1000);
            assert_eq!(q.nzb_file_size, NZB.len() as i64);
            match added_reply(q.id, Ok(())) {
                ApiReply::Added(a) => {
                    assert!(a.status);
                    assert_eq!(a.nzo_ids, vec![uuid_text(q.id)]);
                    assert_eq!(rest_retry_history(&a.nzo_ids[0]), Ok(RANDOM_ID));
                }
                other => panic!("unexpected reply {:?}", other),
            }
        }
        other => panic!("unexpected write {:?}", other),
    }
}

#[test]
fn jobs_that_cannot_be_queued_are_refused() {
    let r = enqueue_nzb(
        new_job(b"<nzb></nzb>"),
        false,
        "film".to_string(),
        1,
        NOW,
    );
    assert!(error_of(&r.unwrap_err()).starts_with("invalid NZB: "));
    let r = enqueue_if_readable(
        new_job("<nzb><file subject=\"ẞ.vol0+1.par2\"></file></nzb>".as_bytes()),
        false,
        "film".to_string(),
        1,
        NOW,
    );
    assert_eq!(
        error_of(&r.unwrap_err()),
        "invalid NZB: sizes or names that the parser cannot take"
    );
    let r = enqueue_if_readable(
        new_job(NZB.as_bytes()),
        false,
        "film".to_string(),
        1,
        NOW,
    );
    assert_eq!(r.unwrap().len(), 2);
    let r = enqueue_parsed(
        Err("no files".to_string()),
        new_job(b""),
        false,
        "film".to_string(),
        1,
        NOW,
    );
    assert_eq!(error_of(&r.unwrap_err()), "invalid NZB: no files");
    let failed = WriteFailure { index: 0, error: "full".to_string() };
    assert_eq!(error_of(&added_reply(1, Err(failed))), "failed to store NZB: full");
    let failed = WriteFailure { index: 1, error: "full".to_string() };
    assert_eq!(error_of(&added_reply(1, Err(failed))), "failed to enqueue: full");
}

#[test]
fn sizes_add_up() {
    let file = |bytes: u64| NzbFile {
        filename: "f".to_string(),
        bytes,
        is_par2: false,
        message_ids: vec![],
    };
    let job = NzbJob { files: vec![file(5), file(7)], password: None };
    let writes = enqueue_parsed(
        Ok(job),
        new_job(b"xyz"),
        false,
        "j".to_string(),
        3,
        NOW,
    )
    .unwrap();
    match &writes[1].write {
        DbWrite::InsertQueueItem(q) => {
            assert_eq!(q.total_segment_bytes, 12);
            assert_eq!(q.nzb_file_size, 3);
            assert_eq!(q.category, "movies");
            assert_eq!(q.file_name, "film.nzb");
        }
        other => panic!("unexpected write {:?}", other),
    }
    for (has_password, stored) in [(false, "film {{pw}}.nzb"), (true, "film.nzb")] {
        let job = NewJob { password: Some("pw".to_string()), ..new_job(NZB.as_bytes()) };
        let writes =
            enqueue_if_readable(job, has_password, "film".to_string(), 3, NOW).unwrap();
        match &writes[1].write {
            DbWrite::InsertQueueItem(q) => assert_eq!(q.file_name, stored),
            other => panic!("unexpected write {:?}", other),
        }
    }
}

#[test]
fn queue_pages_show_what_is_processed() {
    let mut status = QueueStatus::default();
    status.active_ids.insert(2);
    let items = vec![queue_item(1, 0), queue_item(2, 2)];
    match queue_reply(Ok(9), Ok(items), &status) {
        ApiReply::Queue(q) => {
            assert_eq!(q.status, "Downloading");
            assert_eq!(q.noofslots, 2);
            assert_eq!(q.noofslots_total, 9);
            assert_eq!(q.slots[0].status, "Queued");
            assert_eq!(q.slots[0].nzo_id, uuid_text(1));
            assert_eq!(q.slots[0].filename, "a");
            assert_eq!(q.slots[1].status, "Processing");
            assert_eq!(q.slots[1].priority, "High");
            assert_eq!(q.slots[1].bytes, 3_145_728);
        }
        other => panic!("unexpected reply {:?}", other),
    }
    let e = queue_reply(Err("locked".to_string()), Ok(vec![]), &status);
    assert_eq!(error_of(&e), "database error: locked");
    let e = queue_reply(Ok(1), Err("locked".to_string()), &status);
    assert_eq!(error_of(&e), "database error: locked");
    let mut p = params("queue");
    p.start = Some(10);
    p.limit = Some(5);
    assert_eq!(handle_queue(&p), QueueAction::List { offset: 10, limit: 5 });
}

#[test]
fn history_pages_show_where_files_are() {
    let mut done = history_item(1, "done");
    done.download_dir_id = Some(4);
    let mut failed = history_item(2, "failed");
    failed.download_status = DownloadStatus::Failed;
    failed.fail_message = Some("no articles".to_string());
    let dirs = vec![Some(directory("/content/tv/done/")), None];
    match history_reply(Ok(vec![done, failed]), Ok(7), dirs) {
        ApiReply::History(h) => {
            assert_eq!(h.noofslots, 7);
            assert_eq!(h.slots[0].status, "Completed");
            assert_eq!(h.slots[0].storage, "/content/tv/done/");
            assert_eq!(h.slots[0].completed, 1_700_000_000);
            assert_eq!(h.slots[0].fail_message, "");
            assert_eq!(h.slots[1].status, "Failed");
            assert_eq!(h.slots[1].fail_message, "no articles");
            assert_eq!(h.slots[1].storage, "");
        }
        other => panic!("unexpected reply {:?}", other),
    }
    let e = history_reply(Err("locked".to_string()), Ok(0), vec![]);
    assert_eq!(error_of(&e), "database error: locked");
    let e = history_reply(Ok(vec![]), Err("locked".to_string()), vec![]);
    assert_eq!(error_of(&e), "database error: locked");
}

fn look_up(history: &[HistoryItem], ids: &[u128]) -> Vec<Result<Option<HistoryItem>, String>> {
    ids.iter().map(|id| Ok(history.iter().find(|h| h.id == *id).cloned())).collect()
}

#[test]
fn test_history_nzo_ids_filter_returns_only_matching() {
    let history = vec![history_item(1, "a"), history_item(2, "b"), history_item(3, "c")];
    let mut p = params("history");
    p.nzo_ids = Some(uuid_text(2));
    let ids = match handle_history(&p) {
        HistoryAction::Find(ids) => ids,
        other => panic!("unexpected action {:?}", other),
    };
    assert_eq!(ids, vec![2]);
    let found = found_items(look_up(&history, &ids));
    match found_reply(found, vec![None]) {
        ApiReply::History(h) => {
            assert_eq!(h.noofslots, 1);
            assert_eq!(h.slots.len(), 1);
            assert_eq!(h.slots[0].nzo_id, uuid_text(2));
            assert_eq!(h.slots[0].name, "b");
        }
        other => panic!("unexpected reply {:?}", other),
    }
    let list = format!("{},nothing,{}", uuid_text(3), uuid_text(1));
    assert_eq!(requested_ids(&list), vec![3, 1]);
    assert_eq!(requested_ids(""), Vec::<u128>::new());
    let e = found_items(vec![Ok(None), Err("locked".to_string()), Ok(None)]);
    assert_eq!(e, Err("locked".to_string()));
    assert_eq!(error_of(&found_reply(e, vec![])), "database error: locked");
}
