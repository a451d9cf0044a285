use nzbdav::db::DbWrite;
use nzbdav::models::{DownloadStatus, QueueItem, Timestamp};
use nzbdav::queue_manager::{
    note_outcome, process_single_item, LoopStep, Outcome, QueueLoop, QueueStatus,
};

const NOW: Timestamp = Timestamp { secs: 1_700_000_000, nanos: 7 };

fn item(id: u128) -> QueueItem {
    QueueItem {
        id,
        created_at: NOW,
        file_name: format!("job{}.nzb", id),
        job_name: format!("job{}", id),
        nzb_file_size: 1,
        total_segment_bytes: 2,
        category: "tv".to_string(),
        priority: 0,
        post_processing: -1,
        pause_until: None,
    }
}

#[test]
fn the_loop_starts_no_more_than_it_may() {
    let mut status = QueueStatus::default();
    let mut queue = QueueLoop::new(2);
    assert_eq!(queue.run_loop(Some(Ok(Some(item(1)))), &mut status), LoopStep::Start(item(1)));
    assert_eq!(queue.run_loop(Some(Ok(Some(item(2)))), &mut status), LoopStep::Start(item(2)));
    assert!(!queue.has_room());
    assert_eq!(queue.run_loop(Some(Ok(Some(item(3)))), &mut status), LoopStep::Wait);
    assert!(status.is_processing);
    assert_eq!(status.current_job, Some("job2".to_string()));
    let mut excluded = queue.excluded();
    excluded.sort();
    assert_eq!(excluded, vec![1, 2]);

    queue.reap(Some(1), &mut status);
    assert!(!status.active_ids.contains(&1));
    assert_eq!(queue.excluded(), vec![2]);
    assert!(queue.has_room());
    queue.reap(Some(2), &mut status);
    assert_eq!(queue.run_loop(Some(Ok(None)), &mut status), LoopStep::Wait);
    assert!(!status.is_processing);
    assert_eq!(status.current_job, None);
}

#[test]
fn a_task_that_broke_off_leaves_its_item_excluded() {
    let mut status = QueueStatus::default();
    let mut queue = QueueLoop::new(1);
    queue.run_loop(Some(Ok(Some(item(5)))), &mut status);
    queue.reap(None, &mut status);
    assert_eq!(queue.excluded(), vec![5]);
    assert!(queue.has_room());
    queue.settle(&mut status);
    assert!(status.active_ids.is_empty());
}

#[test]
fn errors_of_the_queue_are_shown() {
    let mut status = QueueStatus::default();
    let mut queue = QueueLoop::new(1);
    assert_eq!(queue.run_loop(None, &mut status), LoopStep::WaitForTimer);
    assert_eq!(status.last_error, None);
    assert_eq!(queue.run_loop(Some(Err("locked".to_string())), &mut status), LoopStep::Wait);
    assert_eq!(status.last_error, Some("locked".to_string()));
    queue.fetched(Ok(Some(item(1))), &mut status);
    assert!(!queue.is_drained());
    queue.drain(Some(1));
    assert!(queue.is_drained());
    assert!(queue.excluded().is_empty());
    assert_eq!(nzbdav::queue_manager::POLL_SECONDS, 3);
}

#[test]
fn test_history_item_id_matches_queue_item_id() {
    let outcome = Outcome::Completed { job_dir_id: 44 };
    let writes = process_single_item(&item(9), &outcome, NOW);
    assert_eq!(writes.len(), 2);
    match &writes[0].write {
        DbWrite::InsertHistoryItem(h) => {
            assert_eq!(h.id, 9);
            assert_eq!(h.job_name, "job9");
            assert_eq!(h.file_name, "job9.nzb");
            assert_eq!(h.category, "tv");
            assert_eq!(h.download_status, DownloadStatus::Completed);
            assert_eq!(h.download_dir_id, Some(44));
            assert_eq!(h.nzb_blob_id, Some(9));
            assert_eq!(h.fail_message, None);
            assert_eq!(h.total_segment_bytes, 2);
        }
        other => panic!("unexpected write {:?}", other),
    }
    assert_eq!(writes[1].write, DbWrite::DeleteQueueItem(9));
    assert!(!writes[0].required && !writes[1].required);
    let mut status = QueueStatus::default();
    status.last_error = Some("old".to_string());
    note_outcome(&mut status, outcome);
    assert_eq!(status.items_processed, 1);
    assert_eq!(status.last_error, None);
}

#[test]
fn errors_that_may_pass_pause_the_item() {
    let outcome = Outcome::Failed { error: "timeout".to_string(), retryable: true };
    let writes = process_single_item(&item(9), &outcome, NOW);
    assert_eq!(writes.len(), 1);
    let until = Timestamp { secs: 1_700_000_060, nanos: 7 };
    assert_eq!(writes[0].write, DbWrite::PauseQueueItem { id: 9, until });
    let leap = Timestamp { secs: 59, nanos: 1_500_000_000 };
    let writes = process_single_item(&item(9), &outcome, leap);
    let until = Timestamp { secs: 119, nanos: 500_000_000 };
    assert_eq!(writes[0].write, DbWrite::PauseQueueItem { id: 9, until });
    let mut status = QueueStatus::default();
    note_outcome(&mut status, outcome);
    assert_eq!(status.last_error, Some("timeout".to_string()));
    assert_eq!(status.items_processed, 0);
}

#[test]
fn other_errors_fail_the_item() {
    let cases = vec![
        (Outcome::Failed { error: "bad".to_string(), retryable: false }, "bad"),
        (Outcome::BlobMissing("gone".to_string()), "NZB blob not found: gone"),
    ];
    for (outcome, message) in cases {
        let writes = process_single_item(&item(9), &outcome, NOW);
        match &writes[0].write {
            DbWrite::InsertHistoryItem(h) => {
                assert_eq!(h.download_status, DownloadStatus::Failed);
                assert_eq!(h.fail_message, Some(message.to_string()));
                assert_eq!(h.download_dir_id, None);
            }
            other => panic!("unexpected write {:?}", other),
        }
        let mut status = QueueStatus::default();
        note_outcome(&mut status, outcome);
        assert!(status.last_error.is_some());
    }
}
