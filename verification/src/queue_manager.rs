//! The queue: which items are started, and what becomes of them.

use std::collections::HashSet;

use vstd::prelude::*;
use vstd::std_specs::hash::*;

use crate::db;
use crate::db::{DbWrite, PlannedWrite, Tables};
use crate::models::{DownloadStatus, HistoryItem, QueueItem, Timestamp};
use crate::text;

verus! {

broadcast use group_hash_axioms;

/// What the queue is doing.
#[derive(Debug, PartialEq, Eq)]
pub struct QueueStatus {
    pub is_processing: bool,
    pub current_job: Option<String>,
    pub active_ids: HashSet<u128>,
    pub items_processed: u64,
    pub last_error: Option<String>,
}

/// A `QueueStatus` with its texts as sequences of characters.
pub struct StatusView {
    pub is_processing: bool,
    pub current_job: Option<Seq<char>>,
    pub active_ids: Set<u128>,
    pub items_processed: u64,
    pub last_error: Option<Seq<char>>,
}

impl View for QueueStatus {
    type V = StatusView;

    open spec fn view(&self) -> StatusView {
        StatusView {
            is_processing: self.is_processing,
            current_job: text::chars_of(self.current_job),
            active_ids: self.active_ids@,
            items_processed: self.items_processed,
            last_error: text::chars_of(self.last_error),
        }
    }
}

/// The status before anything was processed.
pub open spec fn initial_status() -> StatusView {
    StatusView {
        is_processing: false,
        current_job: None,
        active_ids: Set::empty(),
        items_processed: 0,
        last_error: None,
    }
}

impl Default for QueueStatus {
    fn default() -> (r: Self)
        ensures
            r@ == initial_status(),
    {
        QueueStatus {
            is_processing: false,
            current_job: None,
            active_ids: HashSet::new(),
            items_processed: 0,
            last_error: None,
        }
    }
}

/// Where the loop stands.
pub struct LoopView {
    pub max_concurrent: int,
    pub running: int,
    pub active: Set<u128>,
}

/// The loop once an item was started.
pub open spec fn started(v: LoopView, id: u128) -> LoopView {
    LoopView { running: v.running + 1, active: v.active.insert(id), ..v }
}

/// The loop once a task ended. A task that broke off leaves its item marked as active.
pub open spec fn reaped(v: LoopView, finished: Option<u128>) -> LoopView {
    match finished {
        Some(id) => LoopView { running: v.running - 1, active: v.active.remove(id), ..v },
        None => LoopView { running: v.running - 1, ..v },
    }
}

/// The status once an item was started.
pub open spec fn status_started(s: StatusView, id: u128, job: Seq<char>) -> StatusView {
    StatusView {
        is_processing: true,
        current_job: Some(job),
        active_ids: s.active_ids.insert(id),
        ..s
    }
}

/// The status once a task ended.
pub open spec fn status_reaped(s: StatusView, finished: Option<u128>) -> StatusView {
    match finished {
        Some(id) => StatusView { active_ids: s.active_ids.remove(id), ..s },
        None => s,
    }
}

/// The status once all tasks have ended.
pub open spec fn status_idle(s: StatusView) -> StatusView {
    StatusView { is_processing: false, current_job: None, active_ids: Set::empty(), ..s }
}

/// What the loop does next.
#[derive(Clone, Debug, PartialEq, Eq)]
pub enum LoopStep {
    /// Starts processing an item, and looks for another at once.
    Start(QueueItem),
    /// Waits until a task ends, the poll timer fires or the server stops.
    Wait,
    /// Waits until the poll timer fires or the server stops.
    WaitForTimer,
}

/// The seconds between two looks at the queue.
pub const POLL_SECONDS: u64 = 3;

/// The loop that starts queue items, so many at a time.
#[derive(Debug, PartialEq, Eq)]
pub struct QueueLoop {
    pub max_concurrent: usize,
    /// How many tasks are running.
    pub running: usize,
    /// The items that were started and have not ended.
    pub active_ids: HashSet<u128>,
}

impl View for QueueLoop {
    type V = LoopView;

    open spec fn view(&self) -> LoopView {
        LoopView {
            max_concurrent: self.max_concurrent as int,
            running: self.running as int,
            active: self.active_ids@,
        }
    }
}

impl QueueLoop {
    /// A loop with nothing running.
    pub fn new(max_concurrent: usize) -> (r: Self)
        ensures
            r@ == (LoopView {
                max_concurrent: max_concurrent as int,
                running: 0,
                active: Set::empty(),
            }),
    {
        QueueLoop { max_concurrent, running: 0, active_ids: HashSet::new() }
    }

    /// Takes note of a task that ended: of its item, or that it broke off.
    pub fn reap(&mut self, finished: Option<u128>, status: &mut QueueStatus)
        requires
            old(self).running > 0,
        ensures
            final(self)@ == reaped(old(self)@, finished),
            final(status)@ == status_reaped(old(status)@, finished),
    {
        self.running = self.running - 1;
        if let Some(id) = finished {
            self.active_ids.remove(&id);
            status.active_ids.remove(&id);
        }
    }

    /// Takes note of a task that ended while the server stops.
    pub fn drain(&mut self, finished: Option<u128>)
        requires
            old(self).running > 0,
        ensures
            final(self)@ == reaped(old(self)@, finished),
    {
        self.running = self.running - 1;
        if let Some(id) = finished {
            self.active_ids.remove(&id);
        }
    }

    /// Whether all tasks have ended, so that the server may stop.
    pub fn is_drained(&self) -> (r: bool)
        ensures
            r == (self.running == 0),
    {
        self.running == 0
    }

    /// Shows that nothing is processed, where nothing is.
    pub fn settle(&self, status: &mut QueueStatus)
        ensures
            final(status)@ == if self.running == 0 {
                status_idle(old(status)@)
            } else {
                old(status)@
            },
    {
        if self.running == 0 {
            status.is_processing = false;
            status.current_job = None;
            status.active_ids.clear();
        }
    }

    /// Whether another item may be started.
    pub fn has_room(&self) -> (r: bool)
        ensures
            r == (self.running < self.max_concurrent),
    {
        self.running < self.max_concurrent
    }

    /// The items that are not to be started, in no particular order.
    pub fn excluded(&self) -> (r: Vec<u128>)
        ensures
            r@.to_set() == self.active_ids@,
            r@.no_duplicates(),
    {
        let mut ids: Vec<u128> = Vec::new();
        for id in it: self.active_ids.iter()
            invariant
                it.seq().unref().to_set() == self.active_ids@,
                it.seq().no_duplicates(),
                ids@ == it.seq().unref().take(it.index() as int),
        {
            ids.push(*id);
            assert(ids@ =~= it.seq().unref().take(it.index() + 1));
        }
        proof {
            let keys = spec_hash_keys_iter(&self.active_ids);
            let all = vstd::std_specs::iter::IteratorSpec::remaining(&keys);
            assert(ids@ =~= all.unref());
            assert forall|i: int, j: int| 0 <= i < ids@.len() && 0 <= j < ids@.len() && i
                != j implies ids@[i] != ids@[j] by {
                assert(all[i] != all[j]);
            }
        }
        ids
    }

    /// Decides on the next item that the queue has: it is started, where there is one.
    pub fn fetched(
        &mut self,
        next: Result<Option<QueueItem>, String>,
        status: &mut QueueStatus,
    ) -> (r: LoopStep)
        requires
            old(self).running < old(self).max_concurrent,
        ensures
            match next {
                Ok(Some(item)) => {
                    &&& r == LoopStep::Start(item)
                    &&& final(self)@ == started(old(self)@, item.id)
                    &&& final(status)@ == status_started(old(status)@, item.id, item.job_name@)
                },
                Ok(None) => {
                    &&& r == LoopStep::Wait
                    &&& final(self)@ == old(self)@
                    &&& final(status)@ == old(status)@
                },
                Err(e) => {
                    &&& r == LoopStep::Wait
                    &&& final(self)@ == old(self)@
                    &&& final(status)@ == (StatusView { last_error: Some(e@), ..old(status)@ })
                },
            },
    {
        match next {
            Ok(Some(item)) => {
                self.active_ids.insert(item.id);
                self.running = self.running + 1;
                status.is_processing = true;
                status.current_job = Some(item.job_name.clone());
                status.active_ids.insert(item.id);
                LoopStep::Start(item)
            },
            Ok(None) => LoopStep::Wait,
            Err(e) => {
                status.last_error = Some(e);
                LoopStep::Wait
            },
        }
    }

    /// One turn of the loop, once the tasks that had ended were reaped. `next` is what the
    /// queue has next, where there is room for it, or that the database could not be opened.
    pub fn run_loop(
        &mut self,
        next: Option<Result<Option<QueueItem>, String>>,
        status: &mut QueueStatus,
    ) -> (r: LoopStep)
        ensures
            ({
                let shown = if old(self).running == 0 {
                    status_idle(old(status)@)
                } else {
                    old(status)@
                };
                if old(self).running >= old(self).max_concurrent {
                    r == LoopStep::Wait && final(self)@ == old(self)@ && final(status)@ == shown
                } else {
                    match next {
                        None => r == LoopStep::WaitForTimer && final(self)@ == old(self)@
                            && final(status)@ == shown,
                        Some(Ok(Some(item))) => r == LoopStep::Start(item) && final(self)@
                            == started(old(self)@, item.id) && final(status)@ == status_started(
                            shown,
                            item.id,
                            item.job_name@,
                        ),
                        Some(Ok(None)) => r == LoopStep::Wait && final(self)@ == old(self)@
                            && final(status)@ == shown,
                        Some(Err(e)) => r == LoopStep::Wait && final(self)@ == old(self)@
                            && final(status)@ == (StatusView { last_error: Some(e@), ..shown }),
                    }
                }
            }),
    {
        self.settle(status);
        if !self.has_room() {
            return LoopStep::Wait;
        }
        match next {
            None => LoopStep::WaitForTimer,
            Some(outcome) => self.fetched(outcome, status),
        }
    }
}

/// How the processing of an item ended.
#[derive(Clone, Debug, PartialEq, Eq)]
pub enum Outcome {
    /// The NZB file could not be read.
    BlobMissing(String),
    Completed { job_dir_id: u128 },
    Failed { error: String, retryable: bool },
}

/// The seconds for which an item rests after an error that may pass.
pub const RETRY_SECONDS: i64 = 60;

/// The last second of the calendar.
pub const LAST_SECOND: i64 = 8_210_266_876_799;

/// The time at which a paused item is taken up again. A leap second is left behind.
pub open spec fn pause_end(now: Timestamp) -> Timestamp {
    Timestamp {
        secs: (now.secs + RETRY_SECONDS) as i64,
        nanos: if now.nanos >= 1_000_000_000 {
            (now.nanos - 1_000_000_000) as u32
        } else {
            now.nanos
        },
    }
}

/// Whether a history item records how a queue item ended. It has the queue item's
/// identifier, so that a client finds under it what it had queued.
pub open spec fn records(
    h: HistoryItem,
    item: QueueItem,
    status: DownloadStatus,
    fail_message: Option<Seq<char>>,
    dir: Option<u128>,
    now: Timestamp,
) -> bool {
    &&& h.id == item.id
    &&& h.created_at == now
    &&& h.file_name@ == item.file_name@
    &&& h.job_name@ == item.job_name@
    &&& h.category@ == item.category@
    &&& h.download_status == status
    &&& h.total_segment_bytes == item.total_segment_bytes
    &&& h.download_time_seconds == 0
    &&& text::chars_of(h.fail_message) == fail_message
    &&& h.download_dir_id == dir
    &&& h.nzb_blob_id == Some(item.id)
}

/// Whether writes move a queue item to the history. Neither failure keeps the other write
/// from being made.
pub open spec fn is_archiving(
    w: Seq<PlannedWrite>,
    item: QueueItem,
    status: DownloadStatus,
    fail_message: Option<Seq<char>>,
    dir: Option<u128>,
    now: Timestamp,
) -> bool {
    &&& w.len() == 2
    &&& !w[0].required
    &&& w[0].write matches DbWrite::InsertHistoryItem(h)
    &&& records(h, item, status, fail_message, dir, now)
    &&& w[1] == (PlannedWrite { write: DbWrite::DeleteQueueItem(item.id), required: false })
}

/// Moves a queue item to the history.
pub fn move_to_history(
    item: &QueueItem,
    status: DownloadStatus,
    fail_message: Option<String>,
    download_dir_id: Option<u128>,
    now: Timestamp,
) -> (r: Vec<PlannedWrite>)
    ensures
        is_archiving(r@, *item, status, text::chars_of(fail_message), download_dir_id, now),
{
    let history = HistoryItem {
        id: item.id,
        created_at: now,
        file_name: item.file_name.clone(),
        job_name: item.job_name.clone(),
        category: item.category.clone(),
        download_status: status,
        total_segment_bytes: item.total_segment_bytes,
        download_time_seconds: 0,
        fail_message,
        download_dir_id,
        nzb_blob_id: Some(item.id),
    };
    let mut writes: Vec<PlannedWrite> = Vec::new();
    writes.push(db::best_effort(DbWrite::InsertHistoryItem(history)));
    writes.push(db::best_effort(DbWrite::DeleteQueueItem(item.id)));
    writes
}

/// The status once an item has ended.
pub open spec fn status_ended(s: StatusView, outcome: Outcome) -> StatusView {
    match outcome {
        Outcome::BlobMissing(e) => StatusView { last_error: Some(e@), ..s },
        Outcome::Completed { job_dir_id } => StatusView {
            items_processed: (s.items_processed + 1) as u64,
            last_error: None,
            ..s
        },
        Outcome::Failed { error, retryable } => StatusView { last_error: Some(error@), ..s },
    }
}

/// Decides what becomes of an item that was processed: it moves to the history, or rests
/// for a while where the error may pass.
pub fn process_single_item(item: &QueueItem, outcome: &Outcome, now: Timestamp) -> (r: Vec<
    PlannedWrite,
>)
    requires
        (*outcome matches Outcome::Failed { error, retryable } && retryable) ==> now.secs
            + RETRY_SECONDS <= LAST_SECOND,
    ensures
        match *outcome {
            Outcome::BlobMissing(e) => is_archiving(
                r@,
                *item,
                DownloadStatus::Failed,
                Some("NZB blob not found: "@ + e@),
                None,
                now,
            ),
            Outcome::Completed { job_dir_id } => is_archiving(
                r@,
                *item,
                DownloadStatus::Completed,
                None,
                Some(job_dir_id),
                now,
            ),
            Outcome::Failed { error, retryable } => if retryable {
                r@ == seq![
                    PlannedWrite {
                        write: DbWrite::PauseQueueItem { id: item.id, until: pause_end(now) },
                        required: false,
                    },
                ]
            } else {
                is_archiving(r@, *item, DownloadStatus::Failed, Some(error@), None, now)
            },
        },
{
    match outcome {
        Outcome::BlobMissing(e) => {
            let message = text::join("NZB blob not found: ", e.as_str());
            move_to_history(item, DownloadStatus::Failed, Some(message), None, now)
        },
        Outcome::Completed { job_dir_id } => move_to_history(
            item,
            DownloadStatus::Completed,
            None,
            Some(*job_dir_id),
            now,
        ),
        Outcome::Failed { error, retryable } => {
            if *retryable {
                let nanos: u32 = if now.nanos >= 1_000_000_000 {
                    now.nanos - 1_000_000_000
                } else {
                    now.nanos
                };
                let until = Timestamp { secs: now.secs + RETRY_SECONDS, nanos };
                let mut writes: Vec<PlannedWrite> = Vec::new();
                writes.push(db::best_effort(DbWrite::PauseQueueItem { id: item.id, until }));
                writes
            } else {
                move_to_history(item, DownloadStatus::Failed, Some(error.clone()), None, now)
            }
        },
    }
}

/// Takes note in the status of how an item ended.
pub fn note_outcome(status: &mut QueueStatus, outcome: Outcome)
    requires
        outcome is Completed ==> old(status).items_processed < u64::MAX,
    ensures
        final(status)@ == status_ended(old(status)@, outcome),
{
    match outcome {
        Outcome::BlobMissing(e) => {
            status.last_error = Some(e);
        },
        Outcome::Completed { job_dir_id: _ } => {
            status.items_processed = status.items_processed + 1;
            status.last_error = None;
        },
        Outcome::Failed { error, retryable: _ } => {
            status.last_error = Some(error);
        },
    }
}

/// What holds of the loop at all times: it runs no more tasks than it may, and every task
/// that runs has an item of its own marked as active.
pub open spec fn is_orderly(v: LoopView) -> bool {
    &&& 0 <= v.running <= v.max_concurrent
    &&& v.active.finite()
    &&& v.running <= v.active.len()
}

/// Starting an item that is not active keeps the loop orderly, and marks the item, so that
/// it is not started again while it runs.
pub proof fn law_start_keeps_order(v: LoopView, id: u128)
    requires
        is_orderly(v),
        v.running < v.max_concurrent,
        !v.active.contains(id),
    ensures
        is_orderly(started(v, id)),
        started(v, id).active.contains(id),
{
}

/// The end of a task keeps the loop orderly.
pub proof fn law_reap_keeps_order(v: LoopView, finished: Option<u128>)
    requires
        is_orderly(v),
        v.running > 0,
        finished matches Some(id) ==> v.active.contains(id),
    ensures
        is_orderly(reaped(v, finished)),
{
}

/// What happens to the loop.
pub enum LoopEvent {
    /// An item was started.
    Started(u128),
    /// A task ended, with its item or broken off.
    Ended(Option<u128>),
}

/// The loop after an event.
pub open spec fn after_event(v: LoopView, e: LoopEvent) -> LoopView {
    match e {
        LoopEvent::Started(id) => started(v, id),
        LoopEvent::Ended(finished) => reaped(v, finished),
    }
}

/// The loop after events, in their order.
pub open spec fn after_events(v: LoopView, events: Seq<LoopEvent>) -> LoopView
    decreases events.len(),
{
    if events.len() == 0 {
        v
    } else {
        after_event(after_events(v, events.drop_last()), events.last())
    }
}

/// Whether an event can happen: an item is started where there is room for it, and none that
/// is excluded from the search for it; a task ends that runs, with an item that is active.
pub open spec fn may_happen(v: LoopView, e: LoopEvent) -> bool {
    match e {
        LoopEvent::Started(id) => v.running < v.max_concurrent && !v.active.contains(id),
        LoopEvent::Ended(finished) => v.running > 0 && (finished matches Some(id)
            ==> v.active.contains(id)),
    }
}

/// Whether events are a run of the loop: each can happen when it does.
pub open spec fn is_run(v: LoopView, events: Seq<LoopEvent>) -> bool {
    forall|k: int|
        0 <= k < events.len() ==> may_happen(after_events(v, events.take(k)), #[trigger] events[k])
}

proof fn lemma_run_prefix(v: LoopView, events: Seq<LoopEvent>, n: int)
    requires
        is_run(v, events),
        0 <= n <= events.len(),
    ensures
        is_run(v, events.take(n)),
{
    assert forall|k: int| 0 <= k < n implies may_happen(
        after_events(v, events.take(n).take(k)),
        #[trigger] events.take(n)[k],
    ) by {
        assert(events.take(n).take(k) =~= events.take(k));
        assert(events[k] == events.take(n)[k]);
    }
}

/// Over a whole run the loop stays orderly: it never runs more tasks than it may.
pub proof fn law_run_keeps_order(v: LoopView, events: Seq<LoopEvent>)
    requires
        is_orderly(v),
        is_run(v, events),
    ensures
        is_orderly(after_events(v, events)),
    decreases events.len(),
{
    if events.len() > 0 {
        let n = events.len() - 1;
        lemma_run_prefix(v, events, n);
        assert(events.take(n) =~= events.drop_last());
        law_run_keeps_order(v, events.drop_last());
        let before = after_events(v, events.drop_last());
        assert(may_happen(before, events[n]));
        match events[n] {
            LoopEvent::Started(id) => law_start_keeps_order(before, id),
            LoopEvent::Ended(finished) => law_reap_keeps_order(before, finished),
        }
    }
}

/// An item that was started stays active until its task ends.
proof fn lemma_stays_active(v: LoopView, events: Seq<LoopEvent>, id: u128, i: int, n: int)
    requires
        0 <= i < n <= events.len(),
        events[i] == LoopEvent::Started(id),
        forall|k: int| i < k < n ==> #[trigger] events[k] != LoopEvent::Ended(Some(id)),
    ensures
        after_events(v, events.take(n)).active.contains(id),
    decreases n,
{
    assert(events.take(n).drop_last() =~= events.take(n - 1));
    assert(events.take(n).last() == events[n - 1]);
    if n - 1 > i {
        lemma_stays_active(v, events, id, i, n - 1);
        assert(events[n - 1] != LoopEvent::Ended(Some(id)));
    }
}

/// Over a whole run no item is started while it is active: between two starts of an item
/// its task has ended.
pub proof fn law_no_item_is_started_twice(
    v: LoopView,
    events: Seq<LoopEvent>,
    id: u128,
    i: int,
    j: int,
)
    requires
        is_run(v, events),
        0 <= i < j < events.len(),
        events[i] == LoopEvent::Started(id),
        events[j] == LoopEvent::Started(id),
    ensures
        exists|k: int| i < k < j && #[trigger] events[k] == LoopEvent::Ended(Some(id)),
{
    if !(exists|k: int| i < k < j && #[trigger] events[k] == LoopEvent::Ended(Some(id))) {
        lemma_stays_active(v, events, id, i, j);
        assert(may_happen(after_events(v, events.take(j)), events[j]));
    }
}

/// The loop once tasks have ended while the server stops.
pub open spec fn after_ends(v: LoopView, ends: Seq<Option<u128>>) -> LoopView
    decreases ends.len(),
{
    if ends.len() == 0 {
        v
    } else {
        reaped(after_ends(v, ends.drop_last()), ends.last())
    }
}

/// The server stops when every task that was running has ended, and not before.
pub proof fn law_shutdown_waits_for_all(v: LoopView, ends: Seq<Option<u128>>)
    requires
        ends.len() <= v.running,
    ensures
        after_ends(v, ends).running == v.running - ends.len(),
        after_ends(v, ends).running == 0 <==> ends.len() == v.running,
    decreases ends.len(),
{
    if ends.len() > 0 {
        law_shutdown_waits_for_all(v, ends.drop_last());
    }
}

/// An item whose task broke off stays excluded, whatever else ends.
pub proof fn law_broken_task_stays_excluded(v: LoopView, id: u128, other: u128)
    requires
        v.active.contains(id),
        id != other,
    ensures
        reaped(v, None).active.contains(id),
        reaped(reaped(v, None), Some(other)).active.contains(id),
{
}

/// The status never shows an item as active that the loop does not.
pub proof fn law_status_shows_active_items(
    v: LoopView,
    s: StatusView,
    id: u128,
    job: Seq<char>,
    finished: Option<u128>,
)
    requires
        s.active_ids.subset_of(v.active),
    ensures
        status_started(s, id, job).active_ids.subset_of(started(v, id).active),
        status_reaped(s, finished).active_ids.subset_of(reaped(v, finished).active),
        status_idle(s).active_ids.subset_of(v.active),
{
}

/// The first history item with this identifier.
pub open spec fn history_by_id(history: Seq<HistoryItem>, id: u128) -> Option<HistoryItem>
    decreases history.len(),
{
    if history.len() == 0 {
        None
    } else if history[0].id == id {
        Some(history[0])
    } else {
        history_by_id(history.drop_first(), id)
    }
}

proof fn lemma_history_push(history: Seq<HistoryItem>, h: HistoryItem, id: u128)
    ensures
        history_by_id(history.push(h), id) == (match history_by_id(history, id) {
            Some(x) => Some(x),
            None => if h.id == id {
                Some(h)
            } else {
                None
            },
        }),
    decreases history.len(),
{
    let longer = history.push(h);
    if history.len() == 0 {
        assert(longer.drop_first() =~= history);
    } else {
        assert(longer.drop_first() =~= history.drop_first().push(h));
        lemma_history_push(history.drop_first(), h, id);
    }
}

/// What was queued under an identifier is found in the history under the same identifier
/// once it has ended, and is no more in the queue. The NZB file stays.
pub proof fn law_history_keeps_the_identifier(
    t: Tables,
    w: Seq<PlannedWrite>,
    item: QueueItem,
    status: DownloadStatus,
    fail_message: Option<Seq<char>>,
    dir: Option<u128>,
    now: Timestamp,
)
    requires
        is_archiving(w, item, status, fail_message, dir, now),
        history_by_id(t.history, item.id) is None,
    ensures
        ({
            let after = db::after_writes(t, w);
            &&& history_by_id(after.history, item.id) matches Some(h)
            &&& records(h, item, status, fail_message, dir, now)
            &&& forall|q: QueueItem| after.queue.contains(q) ==> q.id != item.id
            &&& forall|q: QueueItem|
                t.queue.contains(q) && q.id != item.id ==> after.queue.contains(q)
            &&& after.nzb_blobs == t.nzb_blobs
            &&& after.items == t.items
        }),
{
    let h = w[0].write->InsertHistoryItem_0;
    let after = db::after_writes(t, w);
    assert(w =~= Seq::<PlannedWrite>::empty().push(w[0]).push(w[1]));
    db::lemma_after_writes_last(t, Seq::empty().push(w[0]), w[1]);
    db::lemma_after_writes_last(t, Seq::empty(), w[0]);
    assert(after.history == t.history.push(h));
    lemma_history_push(t.history, h, item.id);
    let keep = |q: QueueItem| q.id != item.id;
    db::lemma_filter_contains(t.queue, keep);
    assert(after.queue == t.queue.filter(keep));
}

/// A loop starts with nothing running, and may run as many tasks as it is told.
pub proof fn law_new_loops_are_idle(max: usize, q: QueueLoop, room: bool, drained: bool, s: QueueStatus)
    requires
        call_ensures(QueueLoop::new, (max,), q),
        call_ensures(QueueLoop::has_room, (&q,), room),
        call_ensures(QueueLoop::is_drained, (&q,), drained),
        call_ensures(QueueStatus::default, (), s),
    ensures
        q.running == 0,
        q.max_concurrent == max,
        forall|id: u128| !q.active_ids@.contains(id),
        room <==> max > 0,
        drained,
        !s.is_processing,
        s.current_job is None,
        s.last_error is None,
        s.items_processed == 0,
        forall|id: u128| !s.active_ids@.contains(id),
{
}

/// There is room as long as fewer tasks run than may, and the server may stop once none does.
pub proof fn law_room_is_what_is_left(
    q: &QueueLoop,
    room: bool,
    drained: bool,
    excluded: Vec<u128>,
    id: u128,
)
    requires
        call_ensures(QueueLoop::has_room, (q,), room),
        call_ensures(QueueLoop::is_drained, (q,), drained),
        call_ensures(QueueLoop::excluded, (q,), excluded),
    ensures
        room <==> q.running < q.max_concurrent,
        drained <==> q.running == 0,
        excluded@.contains(id) <==> q.active_ids@.contains(id),
{
    assert(excluded@.to_set().contains(id) <==> excluded@.contains(id));
}

/// A turn of the loop starts the next item of the queue where there is room for it: the item
/// is then running, shown as being processed, and excluded from the next search.
pub proof fn law_turns_start_the_next_item(
    q: &mut QueueLoop,
    s: &mut QueueStatus,
    item: QueueItem,
    r: LoopStep,
)
    requires
        old(q).running < old(q).max_concurrent,
        call_ensures(QueueLoop::run_loop, (q, Some(Ok(Some(item))), s), r),
    ensures
        r == LoopStep::Start(item),
        final(q).running == old(q).running + 1,
        final(q).max_concurrent == old(q).max_concurrent,
        forall|id: u128|
            final(q).active_ids@.contains(id) <==> old(q).active_ids@.contains(id) || id == item.id,
        final(s).is_processing,
        final(s).current_job matches Some(j) && j@ == item.job_name@,
        final(s).active_ids@.contains(item.id),
        old(q).running > 0 ==> forall|id: u128|
            final(s).active_ids@.contains(id) <==> old(s).active_ids@.contains(id) || id
                == item.id,
        final(s).items_processed == old(s).items_processed,
        text::chars_of(final(s).last_error) == text::chars_of(old(s).last_error),
{
    assert(final(s)@.is_processing);
    assert(final(q)@.max_concurrent == old(q)@.max_concurrent);
    assert(final(q)@.running == old(q)@.running + 1);
    assert(final(s)@.items_processed == old(s)@.items_processed);
    assert(final(s)@.last_error == old(s)@.last_error);
    assert(final(s)@.current_job == Some(item.job_name@));
}

/// A turn that starts nothing leaves the loop as it is: it waits, for the timer where the
/// queue could not be asked, and shows an error that the queue gave.
pub proof fn law_other_turns_start_nothing(
    q: &mut QueueLoop,
    s: &mut QueueStatus,
    next: Option<Result<Option<QueueItem>, String>>,
    r: LoopStep,
)
    requires
        old(q).running >= old(q).max_concurrent || !(next matches Some(Ok(Some(_)))),
        call_ensures(QueueLoop::run_loop, (q, next, s), r),
    ensures
        final(q).running == old(q).running,
        final(q).max_concurrent == old(q).max_concurrent,
        final(q).active_ids@ == old(q).active_ids@,
        old(q).running >= old(q).max_concurrent ==> r == LoopStep::Wait,
        old(q).running < old(q).max_concurrent && next is None ==> r == LoopStep::WaitForTimer,
        old(q).running < old(q).max_concurrent && next is Some ==> r == LoopStep::Wait,
        final(s).items_processed == old(s).items_processed,
        old(q).running == 0 ==> !final(s).is_processing && final(s).current_job is None && forall|
            id: u128,
        | !final(s).active_ids@.contains(id),
        old(q).running > 0 ==> final(s).is_processing == old(s).is_processing
            && final(s).active_ids@ == old(s).active_ids@ && text::chars_of(final(s).current_job)
            == text::chars_of(old(s).current_job),
        old(q).running < old(q).max_concurrent && next is Some && next->0 is Err ==> (
        final(s).last_error matches Some(m) && m@ == next->0->Err_0@),
        old(q).running >= old(q).max_concurrent || !(next is Some && next->0 is Err)
            ==> text::chars_of(final(s).last_error) == text::chars_of(old(s).last_error),
{
    assert(final(q)@ == old(q)@);
    assert(final(q)@.max_concurrent == old(q)@.max_concurrent);
    assert(final(q)@.running == old(q)@.running);
    assert(final(q)@.active == old(q)@.active);
    let shown = if old(q).running == 0 {
        status_idle(old(s)@)
    } else {
        old(s)@
    };
    assert(final(s)@.items_processed == shown.items_processed);
    assert(final(s)@.is_processing == shown.is_processing);
    assert(final(s)@.active_ids == shown.active_ids);
    assert(final(s)@.current_job == shown.current_job);
}

/// The end of a task undoes its start: the loop runs one task less, and the item, which is
/// named, is active no more. A task that broke off leaves its item active.
pub proof fn law_ends_undo_starts(
    q: &mut QueueLoop,
    s: &mut QueueStatus,
    d: &mut QueueLoop,
    finished: Option<u128>,
)
    requires
        old(q).running > 0,
        *old(d) == *old(q),
        call_ensures(QueueLoop::reap, (q, finished, s), ()),
        call_ensures(QueueLoop::drain, (d, finished), ()),
    ensures
        final(q).running == old(q).running - 1,
        final(q).max_concurrent == old(q).max_concurrent,
        forall|id: u128|
            final(q).active_ids@.contains(id) <==> old(q).active_ids@.contains(id) && finished
                != Some(id),
        forall|id: u128|
            final(s).active_ids@.contains(id) <==> old(s).active_ids@.contains(id) && finished
                != Some(id),
        final(s).is_processing == old(s).is_processing,
        final(s).items_processed == old(s).items_processed,
        text::chars_of(final(s).current_job) == text::chars_of(old(s).current_job),
        text::chars_of(final(s).last_error) == text::chars_of(old(s).last_error),
        final(d)@ == final(q)@,
{
    assert(final(q)@.max_concurrent == old(q)@.max_concurrent);
    assert(final(q)@.running == old(q)@.running - 1);
    assert(final(s)@.is_processing == old(s)@.is_processing);
    assert(final(s)@.items_processed == old(s)@.items_processed);
    assert(final(s)@.current_job == old(s)@.current_job);
    assert(final(s)@.last_error == old(s)@.last_error);
}

/// An item that is fetched is started, and its end restores the loop.
pub proof fn law_fetched_items_are_started(
    q: &mut QueueLoop,
    s: &mut QueueStatus,
    item: QueueItem,
    r: LoopStep,
    later: &mut QueueLoop,
    shown: &mut QueueStatus,
)
    requires
        old(q).running < old(q).max_concurrent,
        !old(q).active_ids@.contains(item.id),
        call_ensures(QueueLoop::fetched, (q, Ok(Some(item)), s), r),
        *old(later) == *final(q),
        *old(shown) == *final(s),
        call_ensures(QueueLoop::reap, (later, Some(item.id), shown), ()),
    ensures
        r == LoopStep::Start(item),
        final(q).active_ids@.contains(item.id),
        final(s).active_ids@.contains(item.id),
        final(s).is_processing,
        final(s).current_job matches Some(j) && j@ == item.job_name@,
        final(later).running == old(q).running,
        final(later).active_ids@ == old(q).active_ids@,
        !final(shown).active_ids@.contains(item.id),
{
    assert(final(s)@.is_processing);
    assert(final(s)@.current_job == Some(item.job_name@));
    assert(final(q)@.running == old(q)@.running + 1);
    assert(final(later)@.running == final(q)@.running - 1);
    assert(final(later)@.active =~= old(q)@.active);
}

/// Where nothing runs, the status shows that; where something does, it stays as it is.
pub proof fn law_idle_loops_show_nothing(q: &QueueLoop, s: &mut QueueStatus)
    requires
        call_ensures(QueueLoop::settle, (q, s), ()),
    ensures
        q.running == 0 ==> !final(s).is_processing && final(s).current_job is None && forall|
            id: u128,
        | !final(s).active_ids@.contains(id),
        q.running > 0 ==> final(s)@ == old(s)@,
        final(s).items_processed == old(s).items_processed,
        text::chars_of(final(s).last_error) == text::chars_of(old(s).last_error),
{
    assert(final(s)@.items_processed == old(s)@.items_processed);
    assert(final(s)@.last_error == old(s)@.last_error);
    if q.running == 0 {
        assert(!final(s)@.is_processing);
        assert(final(s)@.current_job is None);
    }
}

/// Whether a history item tells of a queue item: under its identifier, with its names, its
/// category, its size and its NZB file.
pub open spec fn tells_of(h: HistoryItem, item: QueueItem, now: Timestamp) -> bool {
    &&& h.id == item.id
    &&& h.created_at == now
    &&& h.file_name@ == item.file_name@
    &&& h.job_name@ == item.job_name@
    &&& h.category@ == item.category@
    &&& h.total_segment_bytes == item.total_segment_bytes
    &&& h.download_time_seconds == 0
    &&& h.nzb_blob_id == Some(item.id)
}

/// Whether tables have an item moved from the queue to the end of the history.
pub open spec fn is_moved(before: Tables, after: Tables, id: u128) -> bool {
    &&& after.history.len() == before.history.len() + 1
    &&& after.history.drop_last() == before.history
    &&& forall|q: QueueItem| #[trigger]
        after.queue.contains(q) <==> before.queue.contains(q) && q.id != id
    &&& after.items == before.items
    &&& after.nzb_blobs == before.nzb_blobs
    &&& after.file_blobs == before.file_blobs
}

proof fn lemma_moved(
    t: Tables,
    w: Seq<PlannedWrite>,
    item: QueueItem,
    status: DownloadStatus,
    fail_message: Option<Seq<char>>,
    dir: Option<u128>,
    now: Timestamp,
)
    requires
        is_archiving(w, item, status, fail_message, dir, now),
    ensures
        is_moved(t, db::after_writes(t, w), item.id),
        db::after_writes(t, w).history.last() == w[0].write->InsertHistoryItem_0,
        forall|k: int| 0 <= k < w.len() ==> !(#[trigger] w[k]).required,
{
    let after = db::after_writes(t, w);
    assert(w =~= Seq::<PlannedWrite>::empty().push(w[0]).push(w[1]));
    db::lemma_after_writes_last(t, Seq::empty().push(w[0]), w[1]);
    db::lemma_after_writes_last(t, Seq::empty(), w[0]);
    let keep = |q: QueueItem| q.id != item.id;
    db::lemma_filter_contains(t.queue, keep);
    assert(after.queue == t.queue.filter(keep));
    assert(after.history.drop_last() =~= t.history);
}

/// An item that was processed moves from the queue to the history, as completed, with the
/// directory that its files are in.
pub proof fn law_completed_items_move_to_history(
    t: Tables,
    item: &QueueItem,
    dir: u128,
    now: Timestamp,
    w: Vec<PlannedWrite>,
)
    requires
        call_ensures(
            process_single_item,
            (item, &Outcome::Completed { job_dir_id: dir }, now),
            w,
        ),
    ensures
        is_moved(t, db::after_writes(t, w@), item.id),
        ({
            let h = db::after_writes(t, w@).history.last();
            &&& tells_of(h, *item, now)
            &&& h.download_status == DownloadStatus::Completed
            &&& h.fail_message is None
            &&& h.download_dir_id == Some(dir)
        }),
        forall|k: int| 0 <= k < w@.len() ==> !(#[trigger] w@[k]).required,
{
    lemma_moved(t, w@, *item, DownloadStatus::Completed, None, Some(dir), now);
}

/// An item that failed for good moves to the history as failed, with the cause and without a
/// directory; one whose NZB file is gone too.
pub proof fn law_failed_items_move_to_history(
    t: Tables,
    item: &QueueItem,
    error: String,
    now: Timestamp,
    failed: Vec<PlannedWrite>,
    lost: Vec<PlannedWrite>,
)
    requires
        call_ensures(
            process_single_item,
            (item, &Outcome::Failed { error, retryable: false }, now),
            failed,
        ),
        call_ensures(process_single_item, (item, &Outcome::BlobMissing(error), now), lost),
    ensures
        is_moved(t, db::after_writes(t, failed@), item.id),
        is_moved(t, db::after_writes(t, lost@), item.id),
        ({
            let h = db::after_writes(t, failed@).history.last();
            &&& tells_of(h, *item, now)
            &&& h.download_status == DownloadStatus::Failed
            &&& h.fail_message matches Some(m) && m@ == error@
            &&& h.download_dir_id is None
        }),
        ({
            let h = db::after_writes(t, lost@).history.last();
            &&& tells_of(h, *item, now)
            &&& h.download_status == DownloadStatus::Failed
            &&& h.fail_message matches Some(m) && m@ == "NZB blob not found: "@ + error@
            &&& h.download_dir_id is None
        }),
{
    let status = DownloadStatus::Failed;
    lemma_moved(t, failed@, *item, status, Some(error@), None, now);
    let message = "NZB blob not found: "@ + error@;
    lemma_moved(t, lost@, *item, status, Some(message), None, now);
}

/// An item that failed with an error that may pass stays in the queue, and rests for a
/// minute; a leap second is left behind. Nothing else changes.
pub proof fn law_paused_items_rest_for_a_minute(
    t: Tables,
    item: &QueueItem,
    error: String,
    now: Timestamp,
    w: Vec<PlannedWrite>,
    k: int,
)
    requires
        now.secs + 60 <= LAST_SECOND,
        0 <= k < t.queue.len(),
        call_ensures(
            process_single_item,
            (item, &Outcome::Failed { error, retryable: true }, now),
            w,
        ),
    ensures
        ({
            let after = db::after_writes(t, w@);
            let q = after.queue[k];
            &&& after == (Tables { queue: after.queue, ..t })
            &&& after.queue.len() == t.queue.len()
            &&& t.queue[k].id != item.id ==> q == t.queue[k]
            &&& t.queue[k].id == item.id ==> {
                &&& q == (QueueItem { pause_until: q.pause_until, ..t.queue[k] })
                &&& q.pause_until is Some
                &&& q.pause_until->0.secs - now.secs == 60
                &&& now.nanos < 1_000_000_000 ==> q.pause_until->0.nanos == now.nanos
                &&& now.nanos >= 1_000_000_000 ==> q.pause_until->0.nanos + 1_000_000_000
                    == now.nanos
            }
        }),
        w@.len() == 1 && !w@[0].required,
{
    assert(w@ =~= Seq::<PlannedWrite>::empty().push(w@[0]));
    db::lemma_after_writes_last(t, Seq::empty(), w@[0]);
}

/// What is moved to the history says what it is told.
pub proof fn law_history_says_what_it_is_told(
    t: Tables,
    item: &QueueItem,
    status: DownloadStatus,
    message: Option<String>,
    dir: Option<u128>,
    now: Timestamp,
    w: Vec<PlannedWrite>,
)
    requires
        call_ensures(move_to_history, (item, status, message, dir, now), w),
    ensures
        is_moved(t, db::after_writes(t, w@), item.id),
        ({
            let h = db::after_writes(t, w@).history.last();
            &&& tells_of(h, *item, now)
            &&& h.download_status == status
            &&& h.download_dir_id == dir
            &&& h.fail_message is Some <==> message is Some
            &&& message is Some ==> h.fail_message->0@ == message->0@
        }),
{
    lemma_moved(t, w@, *item, status, text::chars_of(message), dir, now);
}

/// An item that is completed is counted, and clears the error that was shown; any other is
/// not counted, and its error is shown. What is being processed stays as it is.
pub proof fn law_outcomes_are_noted(s: &mut QueueStatus, outcome: Outcome)
    requires
        old(s).items_processed < u64::MAX,
        call_ensures(note_outcome, (s, outcome), ()),
    ensures
        outcome is Completed ==> final(s).items_processed == old(s).items_processed + 1
            && final(s).last_error is None,
        !(outcome is Completed) ==> final(s).items_processed == old(s).items_processed,
        outcome matches Outcome::BlobMissing(e) ==> (final(s).last_error matches Some(m) && m@
            == e@),
        outcome matches Outcome::Failed { error, retryable } ==> (final(s).last_error matches Some(
            m,
        ) && m@ == error@),
        final(s).is_processing == old(s).is_processing,
        final(s).active_ids@ == old(s).active_ids@,
        text::chars_of(final(s).current_job) == text::chars_of(old(s).current_job),
{
    let v = final(s)@;
    assert(v.is_processing == old(s)@.is_processing);
    assert(v.active_ids == old(s)@.active_ids);
    assert(v.current_job == old(s)@.current_job);
    assert(v.items_processed == final(s).items_processed);
    assert(v.last_error == text::chars_of(final(s).last_error));
}

} // verus!
