//! What holds of a job as a whole: where its directories lie, which of its files go where,
//! and what is written for them. Each law speaks of the functions themselves:
//! `call_ensures(f, args, r)` says that `f` returns `r` for these arguments.

use vstd::prelude::*;

use crate::db;
use crate::db::{DbWrite, PlannedWrite, Tables};
use crate::error::{PipelineError, PipelineErrorView};
use crate::models::{
    DavItem, DavMultipartFile, DavNzbFile, ItemSubType, ItemType, QueueItem, Timestamp,
};
use crate::nzb;
use crate::nzb::NzbJob;
use crate::pipeline::fetch_first_segments::NzbFileInfo;
use crate::pipeline::queue_item_processor;
use crate::pipeline::queue_item_processor::{
    CollectedItems, Encoded, EnsuredDirectory, JobPaths, ParsedJob, PersistPlan, Persisted,
    PlacedJob, QueueItemProcessor, SortedJob,
};
use crate::pipeline::rar_processor;
use crate::pipeline::rar_processor::{ProcessedFile, RarOutcome};

verus! {

/// A job lies below `/content/`, in a directory with its name: in the directory of its
/// category, where it has one. Two jobs of a category with different names lie in different
/// directories.
pub proof fn law_jobs_lie_under_their_names(
    item: &QueueItem,
    other: &QueueItem,
    p: JobPaths,
    q: JobPaths,
)
    requires
        call_ensures(queue_item_processor::job_paths, (item,), p),
        call_ensures(queue_item_processor::job_paths, (other,), q),
    ensures
        p.has_category <==> item.category@.len() > 0,
        item.category@.len() == 0 ==> p.parent_path@ == "/content/"@,
        item.category@.len() > 0 ==> p.parent_path@ == "/content/"@ + item.category@ + "/"@,
        p.job_dir_path@ == p.parent_path@ + item.job_name@ + "/"@,
        item.category@ == other.category@ ==> p.parent_path@ == q.parent_path@,
        item.category@ == other.category@ && item.job_name@ != other.job_name@
            ==> p.job_dir_path@ != q.job_dir_path@,
{
    reveal_strlit("/");
    if item.category@ == other.category@ && p.job_dir_path@ == q.job_dir_path@ {
        let n = p.parent_path@.len() as int;
        let a = p.job_dir_path@;
        let b = q.job_dir_path@;
        assert(a.subrange(n, a.len() - 1) =~= item.job_name@);
        assert(b.subrange(n, b.len() - 1) =~= other.job_name@);
    }
}

/// A directory that is made has the name, the path and the parent that it was asked for, and
/// belongs to the job that it was made for.
pub proof fn law_made_directories_are_as_asked(
    path: &str,
    name: &str,
    parent: u128,
    history: Option<u128>,
    id: u128,
    now: Timestamp,
    r: DavItem,
)
    requires
        call_ensures(
            queue_item_processor::create_directory,
            (path, name, parent, history, id, now),
            r,
        ),
    ensures
        r.id == id,
        r.path@ == path@,
        r.name@ == name@,
        r.parent_id == Some(parent),
        r.history_item_id == history,
        r.created_at == now,
        r.item_type == ItemType::Directory,
        r.sub_type == ItemSubType::Directory,
        r.file_size is None,
        r.file_blob_id is None,
        r.nzb_blob_id is None,
        r.release_date is None,
        r.last_health_check is None,
        r.next_health_check is None,
        r.id_prefix@.len() == 1,
        name@.len() == 0 ==> r.id_prefix@[0] == 'd',
        name@.len() > 0 && !('A' <= name@[0] <= 'Z') ==> r.id_prefix@[0] == name@[0],
        name@.len() > 0 && 'A' <= name@[0] <= 'Z' ==> r.id_prefix@[0] as int == name@[0] as int
            + 32,
{
}

/// A directory that is there is taken as it is, and one that is not is made below the parent
/// that was found, with the identifier that is given. What belongs to no job has no job.
pub proof fn law_directories_are_made_where_missing(
    path: &str,
    name: &str,
    parent_path: &str,
    there: DavItem,
    parent: DavItem,
    history: Option<u128>,
    id: u128,
    now: Timestamp,
    kept: Result<EnsuredDirectory, PipelineError>,
    made: Result<EnsuredDirectory, PipelineError>,
    plain: Result<EnsuredDirectory, PipelineError>,
    lost: Result<EnsuredDirectory, PipelineError>,
)
    requires
        call_ensures(
            queue_item_processor::ensure_directory_with_history,
            (path, name, parent_path, history, Ok(Some(there)), Ok(Some(parent)), id, now),
            kept,
        ),
        call_ensures(
            queue_item_processor::ensure_directory_with_history,
            (path, name, parent_path, history, Ok(None), Ok(Some(parent)), id, now),
            made,
        ),
        call_ensures(
            queue_item_processor::ensure_directory,
            (path, name, parent_path, Ok(None), Ok(Some(parent)), id, now),
            plain,
        ),
        call_ensures(
            queue_item_processor::ensure_directory_with_history,
            (path, name, parent_path, history, Ok(None), Ok(None), id, now),
            lost,
        ),
    ensures
        kept matches Ok(d) && d.item == there && !d.is_new,
        made matches Ok(d) && d.is_new && d.item.id == id && d.item.path@ == path@ && d.item.name@
            == name@ && d.item.parent_id == Some(parent.id) && d.item.history_item_id == history
            && d.item.item_type == ItemType::Directory && d.item.created_at == now,
        plain matches Ok(d) && d.is_new && d.item.id == id && d.item.path@ == path@
            && d.item.parent_id == Some(parent.id) && d.item.history_item_id is None,
        lost matches Err(e) && e@ == PipelineErrorView::Other(
            "parent directory not found: "@ + parent_path@,
        ),
{
}

/// Where the database fails, no directory is made, and its error is the result.
pub proof fn law_database_errors_stop_directories(
    path: &str,
    name: &str,
    parent_path: &str,
    history: Option<u128>,
    error: PipelineError,
    parent: Result<Option<DavItem>, PipelineError>,
    id: u128,
    now: Timestamp,
    a: Result<EnsuredDirectory, PipelineError>,
    b: Result<EnsuredDirectory, PipelineError>,
)
    requires
        call_ensures(
            queue_item_processor::ensure_directory_with_history,
            (path, name, parent_path, history, Err(error), parent, id, now),
            a,
        ),
        call_ensures(
            queue_item_processor::ensure_directory_with_history,
            (path, name, parent_path, history, Ok(None), Err(error), id, now),
            b,
        ),
    ensures
        a is Err && a->Err_0@ == error@,
        b is Err && b->Err_0@ == error@,
{
}

/// A job starts with its own queue item and its own NZB file; one that cannot be parsed ends
/// in the parser's error.
pub proof fn law_jobs_start_from_their_nzb(
    item: QueueItem,
    job: NzbJob,
    error: String,
    r: Result<ParsedJob, PipelineError>,
    e: Result<ParsedJob, PipelineError>,
)
    requires
        call_ensures(QueueItemProcessor::begin, (item, Ok(job)), r),
        call_ensures(QueueItemProcessor::begin, (item, Err(error)), e),
    ensures
        r matches Ok(p) && p.item == item && p.job == job,
        e matches Err(x) && x@ == PipelineErrorView::Other("NZB parse error: "@ + error@),
{
}

/// What is processed is what the parser made of the data.
pub proof fn law_processing_parses_the_data(
    item: QueueItem,
    data: &[u8],
    r: Result<ParsedJob, PipelineError>,
)
    requires
        nzb::is_readable(data@),
        call_ensures(QueueItemProcessor::process_if_readable, (item, data), r),
    ensures
        r is Ok <==> nzb::nzb_parsed(data@) is Ok,
        r matches Ok(p) ==> p.item == item && p.job@ == nzb::nzb_parsed(data@)->Ok_0,
        r matches Err(x) ==> x@ == PipelineErrorView::Other(
            "NZB parse error: "@ + nzb::nzb_parsed(data@)->Err_0,
        ),
{
}

/// The directory of a job has the name of the job, lies in that of its category, and belongs
/// to what the job becomes in the history. It is counted where it is made, and so is that of
/// the category.
pub proof fn law_job_directory_belongs_to_the_job(
    item: QueueItem,
    job: NzbJob,
    parsed: ParsedJob,
    category: &Option<EnsuredDirectory>,
    parent: DavItem,
    id: u128,
    now: Timestamp,
    r: Result<PlacedJob, PipelineError>,
)
    requires
        call_ensures(QueueItemProcessor::begin, (item, Ok(job)), Ok(parsed)),
        call_ensures(
            ParsedJob::job_directory,
            (parsed, category, Ok(None), Ok(Some(parent)), id, now),
            r,
        ),
    ensures
        r is Ok,
        ({
            let placed = r->Ok_0;
            let d = placed.directory.item;
            &&& placed.directory.is_new
            &&& d.id == id
            &&& d.name@ == item.job_name@
            &&& d.parent_id == Some(parent.id)
            &&& d.history_item_id == Some(item.id)
            &&& d.item_type == ItemType::Directory
            &&& d.created_at == now
            &&& item.category@.len() == 0 ==> d.path@ == "/content/"@ + item.job_name@ + "/"@
            &&& item.category@.len() > 0 ==> d.path@ == "/content/"@ + item.category@ + "/"@
                + item.job_name@ + "/"@
            &&& placed.path@ == d.path@
            &&& placed.item == item
            &&& placed.job == job
            &&& placed.made == (if category matches Some(c) && c.is_new {
                2int
            } else {
                1
            })
        }),
{
}

/// A job whose directory is there keeps it, and counts no directory but a new one of its
/// category.
pub proof fn law_known_job_directory_is_kept(
    item: QueueItem,
    job: NzbJob,
    parsed: ParsedJob,
    category: &Option<EnsuredDirectory>,
    there: DavItem,
    parent: Result<Option<DavItem>, PipelineError>,
    id: u128,
    now: Timestamp,
    r: Result<PlacedJob, PipelineError>,
)
    requires
        call_ensures(QueueItemProcessor::begin, (item, Ok(job)), Ok(parsed)),
        call_ensures(
            ParsedJob::job_directory,
            (parsed, category, Ok(Some(there)), parent, id, now),
            r,
        ),
    ensures
        r is Ok,
        r->Ok_0.directory.item == there,
        !r->Ok_0.directory.is_new,
        r->Ok_0.item == item,
        r->Ok_0.job == job,
        item.category@.len() == 0 ==> r->Ok_0.path@ == "/content/"@ + item.job_name@ + "/"@,
        item.category@.len() > 0 ==> r->Ok_0.path@ == "/content/"@ + item.category@ + "/"@
            + item.job_name@ + "/"@,
        r->Ok_0.made == (if category matches Some(c) && c.is_new {
            1int
        } else {
            0
        }),
{
}

/// A category has a directory with its name directly below `/content/`, which belongs to no
/// job. A job without a category needs none.
pub proof fn law_category_directory_is_shared(
    item: QueueItem,
    job: NzbJob,
    parsed: ParsedJob,
    parent: DavItem,
    id: u128,
    now: Timestamp,
    r: Result<Option<EnsuredDirectory>, PipelineError>,
)
    requires
        call_ensures(QueueItemProcessor::begin, (item, Ok(job)), Ok(parsed)),
        call_ensures(
            ParsedJob::category_directory,
            (&parsed, Ok(None), Ok(Some(parent)), id, now),
            r,
        ),
    ensures
        r is Ok,
        item.category@.len() == 0 ==> r->Ok_0 is None,
        item.category@.len() > 0 ==> {
            &&& r->Ok_0 matches Some(d)
            &&& d.is_new
            &&& d.item.id == id
            &&& d.item.path@ == "/content/"@ + item.category@ + "/"@
            &&& d.item.name@ == item.category@
            &&& d.item.parent_id == Some(parent.id)
            &&& d.item.history_item_id is None
        },
{
}

/// Every archive of a job is processed as one, every other file that is no recovery file as a
/// plain file, and no file as both.
pub proof fn law_files_are_sorted_by_what_they_are(
    placed: PlacedJob,
    infos: Vec<NzbFileInfo>,
    from_name: Option<String>,
    r: SortedJob,
)
    requires
        call_ensures(PlacedJob::sort_files, (placed, infos, from_name), r),
    ensures
        forall|f: NzbFileInfo| #[trigger] r.rar@.contains(f) <==> infos@.contains(f) && f.is_rar,
        forall|f: NzbFileInfo| #[trigger]
            r.plain@.contains(f) <==> infos@.contains(f) && !f.is_rar && !f.is_par2,
        r.rar@.len() + r.plain@.len() <= infos@.len(),
        (forall|i: int|
            0 <= i < infos@.len() ==> (#[trigger] infos@[i]).is_rar || !infos@[i].is_par2)
            ==> r.rar@.len() + r.plain@.len() == infos@.len(),
        r.job_dir_id == placed.directory.item.id,
        r.path == placed.path,
        r.made == placed.made,
        from_name is Some ==> r.password == from_name,
        from_name is None ==> r.password == placed.job.password,
{
    let rar = |f: NzbFileInfo| f.is_rar;
    let plain = |f: NzbFileInfo| !f.is_rar && !f.is_par2;
    db::lemma_filter_contains(infos@, rar);
    db::lemma_filter_contains(infos@, plain);
    lemma_partition(infos@);
}

/// Archives and plain files are different files.
proof fn lemma_partition(infos: Seq<NzbFileInfo>)
    ensures
        infos.filter(|f: NzbFileInfo| f.is_rar).len() + infos.filter(
            |f: NzbFileInfo| !f.is_rar && !f.is_par2,
        ).len() <= infos.len(),
        (forall|i: int| 0 <= i < infos.len() ==> (#[trigger] infos[i]).is_rar || !infos[i].is_par2)
            ==> infos.filter(|f: NzbFileInfo| f.is_rar).len() + infos.filter(
            |f: NzbFileInfo| !f.is_rar && !f.is_par2,
        ).len() == infos.len(),
    decreases infos.len(),
{
    reveal(Seq::filter);
    if infos.len() > 0 {
        let rest = infos.drop_last();
        lemma_partition(rest);
        if forall|i: int|
            0 <= i < infos.len() ==> (#[trigger] infos[i]).is_rar || !infos[i].is_par2 {
            assert forall|i: int| 0 <= i < rest.len() implies (#[trigger] rest[i]).is_rar
                || !rest[i].is_par2 by {
                assert(rest[i] == infos[i]);
            }
            let last = infos[infos.len() - 1];
            assert(last.is_rar || !last.is_par2);
        }
    }
}

/// Files are sorted alike whether a job or only its files are handed in.
pub proof fn law_split_sorts_the_same(
    infos: Vec<NzbFileInfo>,
    r: (Vec<NzbFileInfo>, Vec<NzbFileInfo>),
)
    requires
        call_ensures(queue_item_processor::split_files, (infos,), r),
    ensures
        forall|f: NzbFileInfo| #[trigger] r.0@.contains(f) <==> infos@.contains(f) && f.is_rar,
        forall|f: NzbFileInfo| #[trigger]
            r.1@.contains(f) <==> infos@.contains(f) && !f.is_rar && !f.is_par2,
        r.0@.len() + r.1@.len() <= infos@.len(),
{
    db::lemma_filter_contains(infos@, |f: NzbFileInfo| f.is_rar);
    db::lemma_filter_contains(infos@, |f: NzbFileInfo| !f.is_rar && !f.is_par2);
    lemma_partition(infos@);
}

/// The password in the name of an NZB file counts before the one inside it.
pub proof fn law_name_decides_the_password(
    given: String,
    job: &NzbJob,
    a: Option<String>,
    b: Option<String>,
)
    requires
        call_ensures(queue_item_processor::job_password, (Some(given), job), a),
        call_ensures(queue_item_processor::job_password, (None, job), b),
    ensures
        a == Some(given),
        b == job.password,
{
}

/// Collecting keeps every file with its metadata: those from archives come first, and the
/// metadata of each is filed under its identifier.
pub proof fn law_collected_files_keep_their_metadata(
    rar: Vec<(DavItem, DavMultipartFile)>,
    plain: Vec<(DavItem, DavNzbFile)>,
    r: CollectedItems,
)
    requires
        call_ensures(queue_item_processor::collect_items, (rar, plain), r),
    ensures
        r.items@.len() == rar@.len() + plain@.len(),
        r.multipart_blobs@.len() == rar@.len(),
        r.nzb_file_blobs@.len() == plain@.len(),
        forall|i: int|
            0 <= i < rar@.len() ==> #[trigger] r.items@[i] == rar@[i].0
                && r.multipart_blobs@[i].0 == r.items@[i].id && r.multipart_blobs@[i].1
                == rar@[i].1,
        forall|i: int|
            0 <= i < plain@.len() ==> #[trigger] r.items@[rar@.len() + i] == plain@[i].0
                && r.nzb_file_blobs@[i].0 == r.items@[rar@.len() + i].id
                && r.nzb_file_blobs@[i].1 == plain@[i].1,
{
    let a = rar@.map_values(|p: (DavItem, DavMultipartFile)| p.0);
    let b = plain@.map_values(|p: (DavItem, DavNzbFile)| p.0);
    assert(r.items@ == a + b);
    assert forall|i: int| 0 <= i < rar@.len() implies #[trigger] r.items@[i] == rar@[i].0
        && r.multipart_blobs@[i].0 == r.items@[i].id && r.multipart_blobs@[i].1 == rar@[i].1 by {
        assert((a + b)[i] == a[i]);
    }
    assert forall|i: int| 0 <= i < plain@.len() implies #[trigger] r.items@[rar@.len() + i]
        == plain@[i].0 && r.nzb_file_blobs@[i].0 == r.items@[rar@.len() + i].id
        && r.nzb_file_blobs@[i].1 == plain@[i].1 by {
        assert((a + b)[rar@.len() + i] == b[i]);
    }
}

/// Whether metadata was filed under an identifier, and could be encoded: this is the first
/// that was.
pub open spec fn is_filed(blobs: Seq<Encoded>, id: u128, data: Vec<u8>) -> bool {
    exists|k: int|
        0 <= k < blobs.len() && #[trigger] blobs[k] == (id, Ok::<Vec<u8>, String>(data))
            && forall|m: int| 0 <= m < k ==> (#[trigger] blobs[m]).0 != id
}

/// Whether no metadata was filed under an identifier.
pub open spec fn is_unfiled(blobs: Seq<Encoded>, id: u128) -> bool {
    forall|k: int| 0 <= k < blobs.len() ==> (#[trigger] blobs[k]).0 != id
}

proof fn lemma_filed(blobs: Seq<Encoded>, id: u128, data: Vec<u8>)
    ensures
        is_filed(blobs, id, data) ==> queue_item_processor::encoded_for(blobs, id) == Some(
            Ok::<Vec<u8>, String>(data),
        ),
        is_unfiled(blobs, id) ==> queue_item_processor::encoded_for(blobs, id) is None,
    decreases blobs.len(),
{
    if blobs.len() > 0 && blobs[0].0 != id {
        let rest = blobs.drop_first();
        lemma_filed(rest, id, data);
        if is_filed(blobs, id, data) {
            let k = choose|k: int|
                0 <= k < blobs.len() && #[trigger] blobs[k] == (id, Ok::<Vec<u8>, String>(data))
                    && forall|m: int| 0 <= m < k ==> (#[trigger] blobs[m]).0 != id;
            assert(rest[k - 1] == blobs[k]);
            assert forall|m: int| 0 <= m < k - 1 implies (#[trigger] rest[m]).0 != id by {
                assert(rest[m] == blobs[m + 1]);
            }
            assert(is_filed(rest, id, data));
        }
        if is_unfiled(blobs, id) {
            assert forall|k: int| 0 <= k < rest.len() implies (#[trigger] rest[k]).0 != id by {
                assert(rest[k] == blobs[k + 1]);
            }
        }
    } else if blobs.len() > 0 {
        if is_filed(blobs, id, data) {
            let k = choose|k: int|
                0 <= k < blobs.len() && #[trigger] blobs[k] == (id, Ok::<Vec<u8>, String>(data))
                    && forall|m: int| 0 <= m < k ==> (#[trigger] blobs[m]).0 != id;
            if k > 0 {
                assert(blobs[0].0 != id);
            }
        }
        if is_unfiled(blobs, id) {
            assert(blobs[0].0 != id);
        }
    }
}

/// Where what is persisted for the item number `i` stands: right behind its metadata.
proof fn lemma_persisted_at(
    items: Seq<DavItem>,
    multipart: Seq<Encoded>,
    nzb_files: Seq<Encoded>,
    blob_ids: Seq<u128>,
    i: int,
) -> (p: int)
    requires
        queue_item_processor::persisted_items(items, multipart, nzb_files, blob_ids).1 is None,
        0 <= i < items.len(),
    ensures
        ({
            let all = queue_item_processor::persisted_items(
                items,
                multipart,
                nzb_files,
                blob_ids,
            ).0;
            let m = queue_item_processor::encoded_for(multipart, items[i].id);
            let n = queue_item_processor::encoded_for(nzb_files, items[i].id);
            &&& 0 <= p < all.len()
            &&& match n {
                Some(Ok(data)) => p > 0 && all[p - 1] == (Persisted::Blob {
                    id: blob_ids[2 * i + 1],
                    data: data@,
                }) && all[p] == Persisted::Item(
                    DavItem { file_blob_id: Some(blob_ids[2 * i + 1]), ..items[i] },
                ),
                Some(Err(_)) => false,
                None => match m {
                    Some(Ok(data)) => p > 0 && all[p - 1] == (Persisted::Blob {
                        id: blob_ids[2 * i],
                        data: data@,
                    }) && all[p] == Persisted::Item(
                        DavItem { file_blob_id: Some(blob_ids[2 * i]), ..items[i] },
                    ),
                    Some(Err(_)) => false,
                    None => all[p] == Persisted::Item(items[i]),
                },
            }
        }),
    decreases items.len(),
{
    let last = items.len() - 1;
    let (before, failed) = queue_item_processor::persisted_items(
        items.drop_last(),
        multipart,
        nzb_files,
        blob_ids,
    );
    let all = queue_item_processor::persisted_items(items, multipart, nzb_files, blob_ids).0;
    if i < last {
        let p = lemma_persisted_at(items.drop_last(), multipart, nzb_files, blob_ids, i);
        assert(all[p] == before[p]);
        if p > 0 {
            assert(all[p - 1] == before[p - 1]);
        }
        p
    } else {
        all.len() - 1
    }
}

/// The row and the metadata of a file are written by required writes, the metadata first,
/// and the row refers to where its metadata is: a plain file to that of its segments, and a
/// file from an archive to that of its parts. Nothing else of the row is changed.
pub proof fn law_rows_refer_to_their_metadata(
    items: Vec<DavItem>,
    multipart: &Vec<Encoded>,
    nzb_files: &Vec<Encoded>,
    blob_ids: &Vec<u128>,
    links: Vec<DavItem>,
    dir: u128,
    made: usize,
    plan: PersistPlan,
    i: int,
    data: Vec<u8>,
)
    requires
        call_ensures(
            queue_item_processor::persist,
            (items, multipart, nzb_files, blob_ids, links, dir, made),
            plan,
        ),
        plan.result is Ok,
        blob_ids@.len() >= 2 * items@.len(),
        0 <= i < items@.len(),
        is_filed(nzb_files@, items@[i].id, data) || (is_unfiled(nzb_files@, items@[i].id)
            && is_filed(multipart@, items@[i].id, data)),
    ensures
        exists|p: int|
            0 < p < plan.writes@.len() && {
                let blob = plan.writes@[p - 1];
                let row = #[trigger] plan.writes@[p];
                &&& blob.required && row.required
                &&& blob.write matches DbWrite::PutFileBlob { id, data: stored }
                &&& row.write matches DbWrite::InsertItem(item)
                &&& stored@ == data@
                &&& item.file_blob_id == Some(id)
                &&& item == (DavItem { file_blob_id: Some(id), ..items@[i] })
                &&& blob_ids@.contains(id)
            },
{
    lemma_filed(nzb_files@, items@[i].id, data);
    lemma_filed(multipart@, items@[i].id, data);
    let files = queue_item_processor::persisted_items(
        items@,
        multipart@,
        nzb_files@,
        blob_ids@,
    ).0;
    let p = lemma_persisted_at(items@, multipart@, nzb_files@, blob_ids@, i);
    let linked = links@.map_values(|x: DavItem| Persisted::Item(x));
    let all = queue_item_processor::all_persisted(plan.writes@);
    assert(all == files + linked);
    assert(all.len() == plan.writes@.len());
    assert(all[p] == files[p] && all[p - 1] == files[p - 1]);
    assert(all[p] == queue_item_processor::persists(plan.writes@[p]));
    assert(all[p - 1] == queue_item_processor::persists(plan.writes@[p - 1]));
    assert(blob_ids@.contains(blob_ids@[2 * i]));
    assert(blob_ids@.contains(blob_ids@[2 * i + 1]));
}

/// A file without metadata is written as it is, and so is every link.
pub proof fn law_other_rows_are_written_as_they_are(
    items: Vec<DavItem>,
    multipart: &Vec<Encoded>,
    nzb_files: &Vec<Encoded>,
    blob_ids: &Vec<u128>,
    links: Vec<DavItem>,
    dir: u128,
    made: usize,
    plan: PersistPlan,
    i: int,
    k: int,
)
    requires
        call_ensures(
            queue_item_processor::persist,
            (items, multipart, nzb_files, blob_ids, links, dir, made),
            plan,
        ),
        plan.result is Ok,
        0 <= i < items@.len(),
        is_unfiled(nzb_files@, items@[i].id),
        is_unfiled(multipart@, items@[i].id),
        0 <= k < links@.len(),
    ensures
        plan.writes@.contains(
            PlannedWrite { write: DbWrite::InsertItem(items@[i]), required: true },
        ),
        plan.writes@.contains(
            PlannedWrite { write: DbWrite::InsertItem(links@[k]), required: true },
        ),
{
    lemma_filed(nzb_files@, items@[i].id, arbitrary());
    lemma_filed(multipart@, items@[i].id, arbitrary());
    let files = queue_item_processor::persisted_items(
        items@,
        multipart@,
        nzb_files@,
        blob_ids@,
    ).0;
    let p = lemma_persisted_at(items@, multipart@, nzb_files@, blob_ids@, i);
    let linked = links@.map_values(|x: DavItem| Persisted::Item(x));
    let all = queue_item_processor::all_persisted(plan.writes@);
    assert(all == files + linked);
    assert(all.len() == plan.writes@.len());
    assert(all[p] == files[p]);
    assert(all[p] == queue_item_processor::persists(plan.writes@[p]));
    let q = files.len() + k;
    assert(all[q] == linked[k]);
    assert(all[q] == queue_item_processor::persists(plan.writes@[q]));
}

/// Persisting fails only where metadata could not be encoded, and then says why.
pub proof fn law_encoded_metadata_is_persisted(
    items: Vec<DavItem>,
    multipart: &Vec<Encoded>,
    nzb_files: &Vec<Encoded>,
    blob_ids: &Vec<u128>,
    links: Vec<DavItem>,
    dir: u128,
    made: usize,
    plan: PersistPlan,
)
    requires
        call_ensures(
            queue_item_processor::persist,
            (items, multipart, nzb_files, blob_ids, links, dir, made),
            plan,
        ),
        forall|k: int| 0 <= k < multipart@.len() ==> (#[trigger] multipart@[k]).1 is Ok,
        forall|k: int| 0 <= k < nzb_files@.len() ==> (#[trigger] nzb_files@[k]).1 is Ok,
    ensures
        plan.result is Ok,
        plan.result->Ok_0.items_created == items@.len() + links@.len() + made,
        plan.result->Ok_0.job_dir_id == dir,
{
    lemma_no_failure(items@, multipart@, nzb_files@, blob_ids@);
}

proof fn lemma_encoded_ok(blobs: Seq<Encoded>, id: u128)
    requires
        forall|k: int| 0 <= k < blobs.len() ==> (#[trigger] blobs[k]).1 is Ok,
    ensures
        queue_item_processor::encoded_for(blobs, id) matches Some(r) ==> r is Ok,
    decreases blobs.len(),
{
    if blobs.len() > 0 {
        assert(blobs[0].1 is Ok);
        let rest = blobs.drop_first();
        assert forall|k: int| 0 <= k < rest.len() implies (#[trigger] rest[k]).1 is Ok by {
            assert(rest[k] == blobs[k + 1]);
        }
        lemma_encoded_ok(rest, id);
    }
}

proof fn lemma_no_failure(
    items: Seq<DavItem>,
    multipart: Seq<Encoded>,
    nzb_files: Seq<Encoded>,
    blob_ids: Seq<u128>,
)
    requires
        forall|k: int| 0 <= k < multipart.len() ==> (#[trigger] multipart[k]).1 is Ok,
        forall|k: int| 0 <= k < nzb_files.len() ==> (#[trigger] nzb_files[k]).1 is Ok,
    ensures
        queue_item_processor::persisted_items(items, multipart, nzb_files, blob_ids).1 is None,
    decreases items.len(),
{
    if items.len() > 0 {
        lemma_no_failure(items.drop_last(), multipart, nzb_files, blob_ids);
        let n = items.len() - 1;
        lemma_encoded_ok(multipart, items[n].id);
        lemma_encoded_ok(nzb_files, items[n].id);
    }
}

/// Metadata that cannot be encoded ends a job of one file, before anything refers to it.
pub proof fn law_unencodable_metadata_ends_the_job(
    items: Vec<DavItem>,
    multipart: &Vec<Encoded>,
    nzb_files: &Vec<Encoded>,
    blob_ids: &Vec<u128>,
    links: Vec<DavItem>,
    dir: u128,
    made: usize,
    plan: PersistPlan,
    error: String,
)
    requires
        call_ensures(
            queue_item_processor::persist,
            (items, multipart, nzb_files, blob_ids, links, dir, made),
            plan,
        ),
        items@.len() == 1,
        multipart@.len() == 1,
        multipart@[0] == (items@[0].id, Err::<Vec<u8>, String>(error)),
    ensures
        plan.result is Err,
        plan.result->Err_0@ == PipelineErrorView::Other("bincode error: "@ + error@),
        plan.writes@.len() == 0,
{
    reveal_with_fuel(queue_item_processor::persisted_items, 2);
    reveal_with_fuel(queue_item_processor::encoded_for, 2);
    assert(queue_item_processor::all_persisted(plan.writes@).len() == plan.writes@.len());
    assert(items@.drop_last() =~= Seq::empty());
}

/// A job that ends well counts every row that it added, and names its directory.
pub proof fn law_finished_jobs_count_their_rows(
    t: Tables,
    sorted: SortedJob,
    items: Vec<DavItem>,
    multipart: &Vec<Encoded>,
    nzb_files: &Vec<Encoded>,
    blob_ids: &Vec<u128>,
    links: Vec<DavItem>,
    plan: PersistPlan,
)
    requires
        call_ensures(
            SortedJob::finish,
            (sorted, items, multipart, nzb_files, blob_ids, links),
            plan,
        ),
        plan.result is Ok,
    ensures
        plan.result->Ok_0.items_created == items@.len() + links@.len() + sorted.made,
        plan.result->Ok_0.job_dir_id == sorted.job_dir_id,
        db::after_writes(t, plan.writes@).items.len() == t.items.len() + items@.len()
            + links@.len(),
        forall|k: int| 0 <= k < plan.writes@.len() ==> (#[trigger] plan.writes@[k]).required,
{
    queue_item_processor::lemma_persisted_rows(
        t,
        plan,
        items@,
        multipart@,
        nzb_files@,
        blob_ids@,
        links@,
        sorted.job_dir_id,
        sorted.made as int,
    );
}

/// A job that was parsed is taken as it is, and one that was not is an error with the
/// parser's text. Processing an item does both.
pub proof fn law_unparsed_jobs_are_errors(
    job: NzbJob,
    error: String,
    item: QueueItem,
    data: &[u8],
    ok: Result<NzbJob, PipelineError>,
    bad: Result<NzbJob, PipelineError>,
    begun: Result<ParsedJob, PipelineError>,
)
    requires
        nzb::is_readable(data@),
        call_ensures(queue_item_processor::job_or_error, (Ok(job),), ok),
        call_ensures(queue_item_processor::job_or_error, (Err(error),), bad),
        call_ensures(QueueItemProcessor::process, (item, data), begun),
    ensures
        ok == Ok::<NzbJob, PipelineError>(job),
        bad is Err && bad->Err_0 is Other,
        bad->Err_0@ == PipelineErrorView::Other("NZB parse error: "@ + error@),
        begun is Ok <==> nzb::nzb_parsed(data@) is Ok,
        begun is Ok ==> begun->Ok_0.item == item && begun->Ok_0.job@ == nzb::nzb_parsed(
            data@,
        )->Ok_0,
        begun is Err ==> begun->Err_0@ == PipelineErrorView::Other(
            "NZB parse error: "@ + nzb::nzb_parsed(data@)->Err_0,
        ),
{
}

/// One more file is sorted behind those of its sort, and leaves the others as they are: files
/// keep their order.
pub proof fn law_sorting_keeps_the_order(
    placed: PlacedJob,
    infos: Vec<NzbFileInfo>,
    longer: Vec<NzbFileInfo>,
    last: NzbFileInfo,
    from_name: Option<String>,
    a: SortedJob,
    b: SortedJob,
    split: (Vec<NzbFileInfo>, Vec<NzbFileInfo>),
)
    requires
        longer@ == infos@.push(last),
        call_ensures(PlacedJob::sort_files, (placed, infos, from_name), a),
        call_ensures(PlacedJob::sort_files, (placed, longer, from_name), b),
        call_ensures(queue_item_processor::split_files, (longer,), split),
    ensures
        b.rar@ == (if last.is_rar {
            a.rar@.push(last)
        } else {
            a.rar@
        }),
        b.plain@ == (if !last.is_rar && !last.is_par2 {
            a.plain@.push(last)
        } else {
            a.plain@
        }),
        split.0@ == b.rar@,
        split.1@ == b.plain@,
        infos@.len() == 0 ==> a.rar@.len() == 0 && a.plain@.len() == 0,
{
    reveal(Seq::filter);
    assert(longer@.drop_last() =~= infos@);
}

/// A job without a place for its directory ends in an error that names the place, and one
/// whose directory cannot be looked up in the error of that. So does its category.
pub proof fn law_jobs_need_a_place(
    item: QueueItem,
    job: NzbJob,
    parsed: ParsedJob,
    category: &Option<EnsuredDirectory>,
    e: PipelineError,
    other: Result<Option<DavItem>, PipelineError>,
    id: u128,
    now: Timestamp,
    homeless: Result<PlacedJob, PipelineError>,
    unknown: Result<PlacedJob, PipelineError>,
    failed: Result<PlacedJob, PipelineError>,
    no_root: Result<Option<EnsuredDirectory>, PipelineError>,
    failed_category: Result<Option<EnsuredDirectory>, PipelineError>,
)
    requires
        call_ensures(QueueItemProcessor::begin, (item, Ok(job)), Ok(parsed)),
        call_ensures(
            ParsedJob::job_directory,
            (parsed, category, Ok(None), Ok(None), id, now),
            homeless,
        ),
        call_ensures(
            ParsedJob::job_directory,
            (parsed, category, Ok(None), Err(e), id, now),
            unknown,
        ),
        call_ensures(ParsedJob::job_directory, (parsed, category, Err(e), other, id, now), failed),
        call_ensures(ParsedJob::category_directory, (&parsed, Ok(None), Ok(None), id, now), no_root),
        call_ensures(
            ParsedJob::category_directory,
            (&parsed, Err(e), other, id, now),
            failed_category,
        ),
    ensures
        homeless is Err && homeless->Err_0 is Other,
        item.category@.len() == 0 ==> homeless->Err_0@ == PipelineErrorView::Other(
            "parent directory not found: "@ + "/content/"@,
        ),
        item.category@.len() > 0 ==> homeless->Err_0@ == PipelineErrorView::Other(
            "parent directory not found: "@ + ("/content/"@ + item.category@ + "/"@),
        ),
        unknown is Err && unknown->Err_0@ == e@,
        failed is Err && failed->Err_0@ == e@,
        item.category@.len() > 0 ==> no_root is Err && no_root->Err_0@ == PipelineErrorView::Other(
            "parent directory not found: "@ + "/content/"@,
        ),
        item.category@.len() > 0 ==> failed_category is Err && failed_category->Err_0@ == e@,
{
}

/// Data that the parser cannot be given end a job with the cause.
pub proof fn law_unreadable_data_end_a_job(
    item: QueueItem,
    data: &[u8],
    readable: bool,
    r: Result<ParsedJob, PipelineError>,
)
    requires
        call_ensures(nzb::nzb_is_readable, (data,), readable),
        !readable,
        call_ensures(QueueItemProcessor::process_if_readable, (item, data), r),
    ensures
        r is Err && r->Err_0 is Other,
        r->Err_0@ == PipelineErrorView::Other("NZB parse error: "@ + nzb::UNREADABLE@),
{
}

/// The files that a job takes from its archives are those that the archives hold: it fails
/// where reading them fails, with the same error.
pub proof fn law_jobs_take_the_files_of_their_archives<V, E>(
    sorted: &SortedJob,
    outcomes: Vec<RarOutcome<V, E>>,
    a: Result<Vec<ProcessedFile<V, E>>, PipelineError>,
    b: Result<Vec<ProcessedFile<V, E>>, PipelineError>,
)
    requires
        outcomes@.len() == sorted.rar@.len(),
        call_ensures(SortedJob::archived_files::<V, E>, (sorted, outcomes), a),
        call_ensures(rar_processor::process_rar_files::<V, E>, (&sorted.rar, outcomes), b),
    ensures
        a is Ok <==> b is Ok,
        a is Err ==> a->Err_0@ == b->Err_0@,
        a is Ok ==> a->Ok_0@.len() == b->Ok_0@.len(),
        a is Ok ==> forall|i: int|
            0 <= i < a->Ok_0@.len() ==> {
                let x = #[trigger] a->Ok_0@[i];
                let y = b->Ok_0@[i];
                &&& x.filename == y.filename
                &&& x.file_size == y.file_size
                &&& x.source_file_index == y.source_file_index
                &&& x.volume_number == y.volume_number
                &&& x.is_encrypted == y.is_encrypted
                &&& x.encryption == y.encryption
            },
{
    if a is Ok {
        let d = rar_processor::described(sorted.rar@, outcomes@);
        assert forall|i: int| 0 <= i < a->Ok_0@.len() implies {
            let x = #[trigger] a->Ok_0@[i];
            let y = b->Ok_0@[i];
            &&& x.filename == y.filename
            &&& x.file_size == y.file_size
            &&& x.source_file_index == y.source_file_index
            &&& x.volume_number == y.volume_number
            &&& x.is_encrypted == y.is_encrypted
            &&& x.encryption == y.encryption
        } by {
            let y = b->Ok_0@[i];
            assert(rar_processor::is_processed(a->Ok_0@[i], d[i].1, d[i].0));
            assert(rar_processor::is_processed(y, d[i].1, d[i].0));
        }
    }
}

} // verus!
