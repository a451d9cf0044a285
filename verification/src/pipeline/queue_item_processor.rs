//! The stages of the pipeline: the directory of a job, its files, and the rows that are
//! written for them.

use vstd::prelude::*;

use crate::db;
use crate::db::{DbWrite, PlannedWrite, Tables};
use crate::error::{PipelineError, PipelineErrorView};
use crate::models::{
    DavItem, DavMultipartFile, DavNzbFile, ItemSubType, ItemType, QueueItem, Timestamp,
};
use crate::nzb;
use crate::nzb::NzbJob;
use crate::pipeline::fetch_first_segments;
use crate::pipeline::fetch_first_segments::{FetchPlan, FirstSegment, NzbFileInfo};
use crate::pipeline::rar_processor;
use crate::pipeline::rar_processor::{ProcessedFile, RarOutcome};
use crate::text;

verus! {

/// The result of processing an item of the queue.
#[derive(Clone, Copy, Debug, PartialEq, Eq, Structural)]
pub struct ProcessResult {
    /// How many items were created, files and directories together.
    pub items_created: usize,
    /// The directory of the job.
    pub job_dir_id: u128,
}

/// The job that was parsed, or that it could not be.
pub fn job_or_error(parsed: Result<NzbJob, String>) -> (r: Result<NzbJob, PipelineError>)
    ensures
        match parsed {
            Ok(job) => r == Ok::<NzbJob, PipelineError>(job),
            Err(e) => r is Err && r->Err_0@ == PipelineErrorView::Other("NZB parse error: "@ + e@),
        },
{
    match parsed {
        Ok(job) => Ok(job),
        Err(e) => Err(PipelineError::Other(text::join("NZB parse error: ", e.as_str()))),
    }
}

/// The directory that holds all jobs.
pub const CONTENT_ROOT: &'static str = "/content/";

/// The directory of the jobs of a category: one of its own, where the category has a name.
pub open spec fn category_dir(category: Seq<char>) -> Seq<char> {
    if category.len() == 0 {
        CONTENT_ROOT@
    } else {
        CONTENT_ROOT@ + category + "/"@
    }
}

/// The directory of a job.
pub open spec fn job_dir(category: Seq<char>, job_name: Seq<char>) -> Seq<char> {
    category_dir(category) + job_name + "/"@
}

/// The directories of a job.
#[derive(Clone, Debug, PartialEq, Eq)]
pub struct JobPaths {
    /// Whether the category has a directory of its own.
    pub has_category: bool,
    pub parent_path: String,
    pub job_dir_path: String,
}

/// Names the directories of a job.
pub fn job_paths(queue_item: &QueueItem) -> (r: JobPaths)
    ensures
        r.has_category == (queue_item.category@.len() > 0),
        r.parent_path@ == category_dir(queue_item.category@),
        r.job_dir_path@ == job_dir(queue_item.category@, queue_item.job_name@),
{
    let has_category = text::to_chars(queue_item.category.as_str()).len() > 0;
    let parent_path = if has_category {
        text::join3(CONTENT_ROOT, queue_item.category.as_str(), "/")
    } else {
        CONTENT_ROOT.to_string()
    };
    let job_dir_path = text::join3(parent_path.as_str(), queue_item.job_name.as_str(), "/");
    JobPaths { has_category, parent_path, job_dir_path }
}

/// A letter in lower case, where it is an ASCII letter.
pub open spec fn ascii_lower(c: char) -> char {
    if 'A' <= c <= 'Z' {
        (c as int + 32) as char
    } else {
        c
    }
}

fn to_ascii_lower(c: char) -> (r: char)
    ensures
        r == ascii_lower(c),
{
    if 'A' <= c && c <= 'Z' {
        let b: u8 = c as u8;
        (b + 32) as char
    } else {
        c
    }
}

/// Whether an item is a directory that the pipeline makes.
pub open spec fn is_directory(
    item: DavItem,
    path: Seq<char>,
    name: Seq<char>,
    parent: u128,
    history_item: Option<u128>,
    id: u128,
    now: Timestamp,
) -> bool {
    &&& item.id == id
    &&& item.id_prefix@ == seq![ascii_lower(text::first_or(name, 'd'))]
    &&& item.created_at == now
    &&& item.parent_id == Some(parent)
    &&& item.name@ == name
    &&& item.file_size is None
    &&& item.item_type == ItemType::Directory
    &&& item.sub_type == ItemSubType::Directory
    &&& item.path@ == path
    &&& item.release_date is None
    &&& item.last_health_check is None
    &&& item.next_health_check is None
    &&& item.history_item_id == history_item
    &&& item.file_blob_id is None
    &&& item.nzb_blob_id is None
}

/// Makes a directory.
pub fn create_directory(
    path: &str,
    name: &str,
    parent_id: u128,
    history_item_id: Option<u128>,
    id: u128,
    now: Timestamp,
) -> (r: DavItem)
    ensures
        is_directory(r, path@, name@, parent_id, history_item_id, id, now),
{
    let prefix = to_ascii_lower(text::first_char(name, 'd'));
    DavItem {
        id,
        id_prefix: text::of_char(prefix),
        created_at: now,
        parent_id: Some(parent_id),
        name: name.to_string(),
        file_size: None,
        item_type: ItemType::Directory,
        sub_type: ItemSubType::Directory,
        path: path.to_string(),
        release_date: None,
        last_health_check: None,
        next_health_check: None,
        history_item_id,
        file_blob_id: None,
        nzb_blob_id: None,
    }
}

/// A directory that is there, or is made by inserting it.
#[derive(Clone, Debug, PartialEq, Eq)]
pub struct EnsuredDirectory {
    pub item: DavItem,
    /// Whether the directory has to be inserted.
    pub is_new: bool,
}

/// Whether a directory was ensured at a path: the one that is there, else a new one.
pub open spec fn is_ensured(
    r: Result<EnsuredDirectory, PipelineError>,
    existing: Result<Option<DavItem>, PipelineError>,
    parent: Result<Option<DavItem>, PipelineError>,
    path: Seq<char>,
    name: Seq<char>,
    parent_path: Seq<char>,
    history_item: Option<u128>,
    id: u128,
    now: Timestamp,
) -> bool {
    match existing {
        Err(e) => r is Err && r->Err_0@ == e@,
        Ok(Some(item)) => r is Ok && r->Ok_0.item == item && !r->Ok_0.is_new,
        Ok(None) => match parent {
            Err(e) => r is Err && r->Err_0@ == e@,
            Ok(None) => r is Err && r->Err_0@ == PipelineErrorView::Other(
                "parent directory not found: "@ + parent_path,
            ),
            Ok(Some(p)) => r is Ok && r->Ok_0.is_new && is_directory(
                r->Ok_0.item,
                path,
                name,
                p.id,
                history_item,
                id,
                now,
            ),
        },
    }
}

/// How many directories are made for a job.
pub open spec fn directories_made(
    category: Option<EnsuredDirectory>,
    directory: EnsuredDirectory,
) -> int {
    (if category matches Some(dir) && dir.is_new {
        1int
    } else {
        0
    }) + (if directory.is_new {
        1int
    } else {
        0
    })
}

/// Ensures a directory that belongs to a job.
pub fn ensure_directory_with_history(
    path: &str,
    name: &str,
    parent_path: &str,
    history_item_id: Option<u128>,
    existing: Result<Option<DavItem>, PipelineError>,
    parent: Result<Option<DavItem>, PipelineError>,
    id: u128,
    now: Timestamp,
) -> (r: Result<EnsuredDirectory, PipelineError>)
    ensures
        is_ensured(
            r,
            existing,
            parent,
            path@,
            name@,
            parent_path@,
            history_item_id,
            id,
            now,
        ),
{
    match existing {
        Err(e) => {
            return Err(e);
        },
        Ok(Some(item)) => {
            return Ok(EnsuredDirectory { item, is_new: false });
        },
        Ok(None) => {},
    }
    match parent {
        Err(e) => Err(e),
        Ok(None) => Err(
            PipelineError::Other(text::join("parent directory not found: ", parent_path)),
        ),
        Ok(Some(p)) => Ok(
            EnsuredDirectory {
                item: create_directory(path, name, p.id, history_item_id, id, now),
                is_new: true,
            },
        ),
    }
}

/// Ensures a directory.
pub fn ensure_directory(
    path: &str,
    name: &str,
    parent_path: &str,
    existing: Result<Option<DavItem>, PipelineError>,
    parent: Result<Option<DavItem>, PipelineError>,
    id: u128,
    now: Timestamp,
) -> (r: Result<EnsuredDirectory, PipelineError>)
    ensures
        is_ensured(r, existing, parent, path@, name@, parent_path@, None, id, now),
{
    ensure_directory_with_history(path, name, parent_path, None, existing, parent, id, now)
}

/// Splits the files of a job into archives and plain files. Recovery files are neither.
pub fn split_files(infos: Vec<NzbFileInfo>) -> (r: (Vec<NzbFileInfo>, Vec<NzbFileInfo>))
    ensures
        r.0@ == infos@.filter(|f: NzbFileInfo| f.is_rar),
        r.1@ == infos@.filter(|f: NzbFileInfo| !f.is_rar && !f.is_par2),
{
    let ghost all = infos@;
    let ghost rar_only = |f: NzbFileInfo| f.is_rar;
    let ghost plain_only = |f: NzbFileInfo| !f.is_rar && !f.is_par2;
    let mut rar: Vec<NzbFileInfo> = Vec::new();
    let mut plain: Vec<NzbFileInfo> = Vec::new();
    proof {
        reveal(Seq::filter);
        assert(all.take(0) =~= Seq::empty());
    }
    for info in it: infos
        invariant
            it.seq() == all,
            rar_only == (|f: NzbFileInfo| f.is_rar),
            plain_only == (|f: NzbFileInfo| !f.is_rar && !f.is_par2),
            rar@ == all.take(it.index() as int).filter(rar_only),
            plain@ == all.take(it.index() as int).filter(plain_only),
    {
        proof {
            reveal(Seq::filter);
            assert(all.take(it.index() + 1).drop_last() =~= all.take(it.index() as int));
            assert(all.take(it.index() + 1).last() == info);
        }
        if info.is_rar {
            rar.push(info);
        } else if !info.is_par2 {
            plain.push(info);
        }
    }
    assert(all.take(all.len() as int) =~= all);
    (rar, plain)
}

/// The password of a job: the one in the name of the NZB file, else the one in its metadata.
pub fn job_password(from_name: Option<String>, job: &NzbJob) -> (r: Option<String>)
    ensures
        match from_name {
            Some(p) => r == Some(p),
            None => r == job.password,
        },
{
    match from_name {
        Some(p) => Some(p),
        None => match &job.password {
            Some(p) => Some(p.clone()),
            None => None,
        },
    }
}

/// The files of a job, and the metadata that is stored for each by its identifier.
#[derive(Clone, Debug, PartialEq, Eq)]
pub struct CollectedItems {
    pub items: Vec<DavItem>,
    pub multipart_blobs: Vec<(u128, DavMultipartFile)>,
    pub nzb_file_blobs: Vec<(u128, DavNzbFile)>,
}

/// Collects the files of a job: those from archives, then the plain ones.
pub fn collect_items(
    rar: Vec<(DavItem, DavMultipartFile)>,
    plain: Vec<(DavItem, DavNzbFile)>,
) -> (r: CollectedItems)
    ensures
        r.items@ == rar@.map_values(|p: (DavItem, DavMultipartFile)| p.0) + plain@.map_values(
            |p: (DavItem, DavNzbFile)| p.0,
        ),
        r.multipart_blobs@ == rar@.map_values(|p: (DavItem, DavMultipartFile)| (p.0.id, p.1)),
        r.nzb_file_blobs@ == plain@.map_values(|p: (DavItem, DavNzbFile)| (p.0.id, p.1)),
{
    let ghost all_rar = rar@;
    let ghost all_plain = plain@;
    let ghost rar_items = rar@.map_values(|p: (DavItem, DavMultipartFile)| p.0);
    let ghost plain_items = plain@.map_values(|p: (DavItem, DavNzbFile)| p.0);
    let mut items: Vec<DavItem> = Vec::new();
    let mut multipart_blobs: Vec<(u128, DavMultipartFile)> = Vec::new();
    let mut nzb_file_blobs: Vec<(u128, DavNzbFile)> = Vec::new();
    for pair in it: rar
        invariant
            it.seq() == all_rar,
            items@ == all_rar.map_values(|p: (DavItem, DavMultipartFile)| p.0).take(
                it.index() as int,
            ),
            multipart_blobs@ == all_rar.map_values(
                |p: (DavItem, DavMultipartFile)| (p.0.id, p.1),
            ).take(it.index() as int),
    {
        let (item, multipart) = pair;
        multipart_blobs.push((item.id, multipart));
        items.push(item);
        proof {
            assert(items@ =~= all_rar.map_values(|p: (DavItem, DavMultipartFile)| p.0).take(
                it.index() + 1,
            ));
            assert(multipart_blobs@ =~= all_rar.map_values(
                |p: (DavItem, DavMultipartFile)| (p.0.id, p.1),
            ).take(it.index() + 1));
        }
    }
    assert(items@ =~= rar_items + plain_items.take(0));
    for pair in it: plain
        invariant
            it.seq() == all_plain,
            plain_items == all_plain.map_values(|p: (DavItem, DavNzbFile)| p.0),
            items@ == rar_items + plain_items.take(it.index() as int),
            nzb_file_blobs@ == all_plain.map_values(
                |p: (DavItem, DavNzbFile)| (p.0.id, p.1),
            ).take(it.index() as int),
    {
        let (item, nzb_file) = pair;
        nzb_file_blobs.push((item.id, nzb_file));
        items.push(item);
        proof {
            assert(items@ =~= rar_items + plain_items.take(it.index() + 1));
            assert(nzb_file_blobs@ =~= all_plain.map_values(
                |p: (DavItem, DavNzbFile)| (p.0.id, p.1),
            ).take(it.index() + 1));
        }
    }
    proof {
        assert(plain_items.take(all_plain.len() as int) =~= plain_items);
        assert(multipart_blobs@ =~= all_rar.map_values(
            |p: (DavItem, DavMultipartFile)| (p.0.id, p.1),
        ));
        assert(nzb_file_blobs@ =~= all_plain.map_values(
            |p: (DavItem, DavNzbFile)| (p.0.id, p.1),
        ));
    }
    CollectedItems { items, multipart_blobs, nzb_file_blobs }
}

/// Metadata in the form in which it is stored, by the identifier of its file, or that it
/// could not be brought into that form.
pub type Encoded = (u128, Result<Vec<u8>, String>);

/// The metadata of a file: the first that has its identifier.
pub open spec fn encoded_for(blobs: Seq<Encoded>, id: u128) -> Option<Result<Vec<u8>, String>>
    decreases blobs.len(),
{
    if blobs.len() == 0 {
        None
    } else if blobs[0].0 == id {
        Some(blobs[0].1)
    } else {
        encoded_for(blobs.drop_first(), id)
    }
}

/// Finds the metadata of a file.
fn find_encoded(blobs: &Vec<Encoded>, id: u128) -> (r: Option<&Result<Vec<u8>, String>>)
    ensures
        match encoded_for(blobs@, id) {
            Some(x) => r is Some && *r->0 == x,
            None => r is None,
        },
{
    let mut i: usize = 0;
    assert(blobs@.skip(0) =~= blobs@);
    while i < blobs.len()
        invariant
            i <= blobs@.len(),
            encoded_for(blobs@, id) == encoded_for(blobs@.skip(i as int), id),
        decreases blobs@.len() - i,
    {
        assert(blobs@.skip(i as int)[0] == blobs@[i as int]);
        if blobs[i].0 == id {
            return Some(&blobs[i].1);
        }
        assert(blobs@.skip(i as int).drop_first() =~= blobs@.skip(i + 1));
        i += 1;
    }
    None
}

/// The same bytes once more.
fn copy_bytes(v: &Vec<u8>) -> (r: Vec<u8>)
    ensures
        r@ == v@,
{
    let mut r: Vec<u8> = Vec::new();
    let mut i: usize = 0;
    while i < v.len()
        invariant
            i <= v@.len(),
            r@ == v@.take(i as int),
        decreases v@.len() - i,
    {
        r.push(v[i]);
        assert(r@ =~= v@.take(i + 1));
        i += 1;
    }
    assert(r@ =~= v@);
    r
}

/// A write that the pipeline makes, with its bytes as a sequence.
pub enum Persisted {
    Blob { id: u128, data: Seq<u8> },
    Item(DavItem),
    Other,
}

/// What a required write persists.
pub open spec fn persists(w: PlannedWrite) -> Persisted {
    match w.write {
        DbWrite::PutFileBlob { id, data } if w.required => Persisted::Blob { id, data: data@ },
        DbWrite::InsertItem(item) if w.required => Persisted::Item(item),
        _ => Persisted::Other,
    }
}

/// What writes persist.
pub open spec fn all_persisted(w: Seq<PlannedWrite>) -> Seq<Persisted> {
    w.map_values(|x: PlannedWrite| persists(x))
}

/// An item that refers to the metadata of its file.
pub open spec fn referring(item: DavItem, blob: Option<u128>) -> DavItem {
    match blob {
        Some(id) => DavItem { file_blob_id: Some(id), ..item },
        None => item,
    }
}

/// What is persisted for one item: its metadata and the item, up to the first metadata that
/// could not be encoded.
pub open spec fn persisted_item(
    item: DavItem,
    multipart: Option<Result<Vec<u8>, String>>,
    nzb_file: Option<Result<Vec<u8>, String>>,
    multipart_id: u128,
    nzb_id: u128,
) -> (Seq<Persisted>, Option<Seq<char>>) {
    match multipart {
        Some(Err(e)) => (Seq::empty(), Some(e@)),
        _ => {
            let first = match multipart {
                Some(Ok(data)) => seq![Persisted::Blob { id: multipart_id, data: data@ }],
                _ => Seq::empty(),
            };
            let blob = if multipart is Some {
                Some(multipart_id)
            } else {
                None
            };
            match nzb_file {
                Some(Err(e)) => (first, Some(e@)),
                Some(Ok(data)) => (
                    first + seq![
                        Persisted::Blob { id: nzb_id, data: data@ },
                        Persisted::Item(referring(item, Some(nzb_id))),
                    ],
                    None,
                ),
                None => (first + seq![Persisted::Item(referring(item, blob))], None),
            }
        },
    }
}

/// What is persisted for items, one after the other, up to the first metadata that could
/// not be encoded.
pub open spec fn persisted_items(
    items: Seq<DavItem>,
    multipart: Seq<Encoded>,
    nzb_files: Seq<Encoded>,
    blob_ids: Seq<u128>,
) -> (Seq<Persisted>, Option<Seq<char>>)
    decreases items.len(),
{
    if items.len() == 0 {
        (Seq::empty(), None)
    } else {
        let n = items.len() - 1;
        let (before, failed) = persisted_items(items.drop_last(), multipart, nzb_files, blob_ids);
        if failed is Some {
            (before, failed)
        } else {
            let (more, error) = persisted_item(
                items[n],
                encoded_for(multipart, items[n].id),
                encoded_for(nzb_files, items[n].id),
                blob_ids[2 * n],
                blob_ids[2 * n + 1],
            );
            (before + more, error)
        }
    }
}

/// An earlier failure stays.
proof fn lemma_persist_stops(
    items: Seq<DavItem>,
    multipart: Seq<Encoded>,
    nzb_files: Seq<Encoded>,
    blob_ids: Seq<u128>,
    k: int,
)
    requires
        0 <= k <= items.len(),
        persisted_items(items.take(k), multipart, nzb_files, blob_ids).1 is Some,
    ensures
        persisted_items(items, multipart, nzb_files, blob_ids) == persisted_items(
            items.take(k),
            multipart,
            nzb_files,
            blob_ids,
        ),
    decreases items.len(),
{
    if k < items.len() {
        assert(items.drop_last().take(k) =~= items.take(k));
        lemma_persist_stops(items.drop_last(), multipart, nzb_files, blob_ids, k);
    } else {
        assert(items.take(k) =~= items);
    }
}

/// The writes for the files of a job, and what the job then ends with.
#[derive(Debug, PartialEq, Eq)]
pub struct PersistPlan {
    pub writes: Vec<PlannedWrite>,
    pub result: Result<ProcessResult, PipelineError>,
}

/// Whether a plan persists the files of a job and the links to them: all of them, with
/// their number and that of the directories that were made as the result, or those before
/// the first metadata that could not be encoded.
pub open spec fn is_persisting(
    plan: PersistPlan,
    items: Seq<DavItem>,
    multipart: Seq<Encoded>,
    nzb_files: Seq<Encoded>,
    blob_ids: Seq<u128>,
    links: Seq<DavItem>,
    job_dir_id: u128,
    made: int,
) -> bool {
    let (files, error) = persisted_items(items, multipart, nzb_files, blob_ids);
    match error {
        Some(e) => {
            &&& all_persisted(plan.writes@) == files
            &&& plan.result is Err
            &&& plan.result->Err_0@ == PipelineErrorView::Other("bincode error: "@ + e)
        },
        None => {
            &&& all_persisted(plan.writes@) == files + links.map_values(
                |i: DavItem| Persisted::Item(i),
            )
            &&& plan.result is Ok
            &&& plan.result->Ok_0.items_created == items.len() + links.len() + made
            &&& plan.result->Ok_0.job_dir_id == job_dir_id
        },
    }
}

/// Plans what is persisted for one item.
fn persist_item(
    writes: &mut Vec<PlannedWrite>,
    item: DavItem,
    multipart: Option<&Result<Vec<u8>, String>>,
    nzb_file: Option<&Result<Vec<u8>, String>>,
    multipart_id: u128,
    nzb_id: u128,
) -> (r: Result<(), String>)
    ensures
        ({
            let (more, error) = persisted_item(
                item,
                match multipart {
                    Some(x) => Some(*x),
                    None => None,
                },
                match nzb_file {
                    Some(x) => Some(*x),
                    None => None,
                },
                multipart_id,
                nzb_id,
            );
            &&& all_persisted(final(writes)@) == all_persisted(old(writes)@) + more
            &&& match error {
                Some(e) => r is Err && r->Err_0@ == e,
                None => r is Ok,
            }
        }),
{
    let ghost before = all_persisted(writes@);
    let mut item = item;
    match multipart {
        Some(Err(e)) => {
            assert(all_persisted(writes@) =~= before + Seq::empty());
            return Err(e.clone());
        },
        Some(Ok(data)) => {
            let ghost w = writes@;
            writes.push(
                db::required(DbWrite::PutFileBlob { id: multipart_id, data: copy_bytes(data) }),
            );
            assert(all_persisted(writes@) =~= before.push(persists(writes@.last())));
            item.file_blob_id = Some(multipart_id);
        },
        None => {},
    }
    let ghost first = all_persisted(writes@);
    match nzb_file {
        Some(Err(e)) => {
            assert(first =~= before + (if multipart is Some {
                seq![first.last()]
            } else {
                Seq::empty()
            }));
            return Err(e.clone());
        },
        Some(Ok(data)) => {
            writes.push(db::required(DbWrite::PutFileBlob { id: nzb_id, data: copy_bytes(data) }));
            assert(all_persisted(writes@) =~= first.push(persists(writes@.last())));
            item.file_blob_id = Some(nzb_id);
        },
        None => {},
    }
    let ghost second = all_persisted(writes@);
    writes.push(db::required(DbWrite::InsertItem(item)));
    assert(all_persisted(writes@) =~= second.push(Persisted::Item(item)));
    Ok(())
}

/// Persists the files of a job: the metadata of each, then the file, and at last the files
/// that link to others. `blob_ids` holds two fresh identifiers for each file, and `made` is
/// how many directories were made for the job.
pub fn persist(
    items: Vec<DavItem>,
    multipart: &Vec<Encoded>,
    nzb_files: &Vec<Encoded>,
    blob_ids: &Vec<u128>,
    links: Vec<DavItem>,
    job_dir_id: u128,
    made: usize,
) -> (r: PersistPlan)
    requires
        blob_ids@.len() >= 2 * items@.len(),
        items@.len() + links@.len() + made <= usize::MAX,
    ensures
        is_persisting(
            r,
            items@,
            multipart@,
            nzb_files@,
            blob_ids@,
            links@,
            job_dir_id,
            made as int,
        ),
{
    let ghost all = items@;
    let ghost all_links = links@;
    let count: usize = items.len();
    let created: usize = count + links.len() + made;
    let mut writes: Vec<PlannedWrite> = Vec::new();
    let mut n: usize = 0;
    assert(all.take(0) =~= Seq::empty());
    assert(all_persisted(writes@) =~= Seq::empty());
    for item in it: items
        invariant
            it.seq() == all,
            n == it.index(),
            count == all.len(),
            blob_ids@.len() >= 2 * all.len(),
            persisted_items(all.take(n as int), multipart@, nzb_files@, blob_ids@) == (
                all_persisted(writes@),
                None::<Seq<char>>,
            ),
    {
        let first = find_encoded(multipart, item.id);
        let second = find_encoded(nzb_files, item.id);
        proof {
            assert(all.take(n + 1).drop_last() =~= all.take(n as int));
            assert(all.take(n + 1)[n as int] == item);
        }
        let ids: usize = blob_ids.len();
        assert(2 * n + 1 < ids);
        let written = persist_item(
            &mut writes,
            item,
            first,
            second,
            blob_ids[2 * n],
            blob_ids[2 * n + 1],
        );
        if let Err(e) = written {
            proof {
                lemma_persist_stops(all, multipart@, nzb_files@, blob_ids@, n + 1);
            }
            return PersistPlan {
                writes,
                result: Err(PipelineError::Other(text::join("bincode error: ", e.as_str()))),
            };
        }
        n += 1;
    }
    assert(all.take(all.len() as int) =~= all);
    let ghost files = all_persisted(writes@);
    let ghost linked = all_links.map_values(|i: DavItem| Persisted::Item(i));
    assert(files + linked.take(0) =~= files);
    for item in it: links
        invariant
            it.seq() == all_links,
            linked == all_links.map_values(|i: DavItem| Persisted::Item(i)),
            all_persisted(writes@) == files + linked.take(it.index() as int),
    {
        let ghost before = writes@;
        writes.push(db::required(DbWrite::InsertItem(item)));
        proof {
            assert(all_persisted(writes@) =~= all_persisted(before).push(Persisted::Item(item)));
            assert(all_persisted(writes@) =~= files + linked.take(it.index() + 1));
        }
    }
    assert(linked.take(all_links.len() as int) =~= linked);
    PersistPlan { writes, result: Ok(ProcessResult { items_created: created, job_dir_id }) }
}

/// Processes items of the queue, stage by stage: each stage gets what was fetched and read
/// for it, and leads to the next.
#[derive(Clone, Copy, Debug, PartialEq, Eq, Structural)]
pub struct QueueItemProcessor;

impl QueueItemProcessor {
    /// Starts to process an item whose NZB file was parsed.
    pub fn begin(item: QueueItem, parsed: Result<NzbJob, String>) -> (r: Result<
        ParsedJob,
        PipelineError,
    >)
        ensures
            match parsed {
                Err(e) => r is Err && r->Err_0@ == PipelineErrorView::Other(
                    "NZB parse error: "@ + e@,
                ),
                Ok(job) => r is Ok && r->Ok_0.wf() && r->Ok_0.item == item && r->Ok_0.job == job,
            },
    {
        match job_or_error(parsed) {
            Err(e) => Err(e),
            Ok(job) => {
                let paths = job_paths(&item);
                Ok(ParsedJob { item, job, paths })
            },
        }
    }

    /// Starts to process an item: parses its NZB file.
    pub fn process(item: QueueItem, nzb_data: &[u8]) -> (r: Result<
        ParsedJob,
        PipelineError,
    >)
        requires
            nzb::is_readable(nzb_data@),
        ensures
            match nzb::nzb_parsed(nzb_data@) {
                Err(e) => r is Err && r->Err_0@ == PipelineErrorView::Other(
                    "NZB parse error: "@ + e,
                ),
                Ok(job) => r is Ok && r->Ok_0.wf() && r->Ok_0.item == item && r->Ok_0.job@ == job,
            },
    {
        let parsed = nzb::parse_nzb(item.job_name.as_str(), nzb_data);
        QueueItemProcessor::begin(item, parsed)
    }

    /// Starts to process an item, or refuses an NZB file that the parser cannot be given.
    pub fn process_if_readable(item: QueueItem, nzb_data: &[u8]) -> (r: Result<
        ParsedJob,
        PipelineError,
    >)
        ensures
            match nzb::nzb_read(nzb_data@) {
                Err(e) => r is Err && r->Err_0@ == PipelineErrorView::Other(
                    "NZB parse error: "@ + e,
                ),
                Ok(job) => r is Ok && r->Ok_0.wf() && r->Ok_0.item == item && r->Ok_0.job@ == job,
            },
    {
        if nzb::nzb_is_readable(nzb_data) {
            QueueItemProcessor::process(item, nzb_data)
        } else {
            QueueItemProcessor::begin(item, Err(nzb::UNREADABLE.to_string()))
        }
    }
}

/// A job whose NZB file was parsed. Its directories come next.
#[derive(Clone, Debug, PartialEq, Eq)]
pub struct ParsedJob {
    pub item: QueueItem,
    pub job: NzbJob,
    pub paths: JobPaths,
}

impl ParsedJob {
    /// The paths are those of the item.
    pub open spec fn wf(self) -> bool {
        &&& self.paths.has_category == (self.item.category@.len() > 0)
        &&& self.paths.parent_path@ == category_dir(self.item.category@)
        &&& self.paths.job_dir_path@ == job_dir(self.item.category@, self.item.job_name@)
    }

    /// Ensures the directory of the category, where that has a name.
    pub fn category_directory(
        &self,
        existing: Result<Option<DavItem>, PipelineError>,
        parent: Result<Option<DavItem>, PipelineError>,
        id: u128,
        now: Timestamp,
    ) -> (r: Result<Option<EnsuredDirectory>, PipelineError>)
        requires
            self.wf(),
        ensures
            self.item.category@.len() == 0 ==> r == Ok::<
                Option<EnsuredDirectory>,
                PipelineError,
            >(None),
            self.item.category@.len() > 0 ==> match r {
                Ok(dir) => dir is Some && is_ensured(
                    Ok(dir->0),
                    existing,
                    parent,
                    category_dir(self.item.category@),
                    self.item.category@,
                    CONTENT_ROOT@,
                    None,
                    id,
                    now,
                ),
                Err(e) => is_ensured(
                    Err(e),
                    existing,
                    parent,
                    category_dir(self.item.category@),
                    self.item.category@,
                    CONTENT_ROOT@,
                    None,
                    id,
                    now,
                ),
            },
    {
        if !self.paths.has_category {
            return Ok(None);
        }
        match ensure_directory(
            self.paths.parent_path.as_str(),
            self.item.category.as_str(),
            CONTENT_ROOT,
            existing,
            parent,
            id,
            now,
        ) {
            Ok(dir) => Ok(Some(dir)),
            Err(e) => Err(e),
        }
    }

    /// Ensures the directory of the job, which belongs to its item in the history.
    /// `category` is the directory of its category, where that has one.
    pub fn job_directory(
        self,
        category: &Option<EnsuredDirectory>,
        existing: Result<Option<DavItem>, PipelineError>,
        parent: Result<Option<DavItem>, PipelineError>,
        id: u128,
        now: Timestamp,
    ) -> (r: Result<PlacedJob, PipelineError>)
        requires
            self.wf(),
        ensures
            match r {
                Ok(placed) => {
                    &&& is_ensured(
                        Ok(placed.directory),
                        existing,
                        parent,
                        job_dir(self.item.category@, self.item.job_name@),
                        self.item.job_name@,
                        category_dir(self.item.category@),
                        Some(self.item.id),
                        id,
                        now,
                    )
                    &&& placed.made == directories_made(*category, placed.directory)
                    &&& placed.path@ == job_dir(self.item.category@, self.item.job_name@)
                    &&& placed.item == self.item
                    &&& placed.job == self.job
                },
                Err(e) => is_ensured(
                    Err(e),
                    existing,
                    parent,
                    job_dir(self.item.category@, self.item.job_name@),
                    self.item.job_name@,
                    category_dir(self.item.category@),
                    Some(self.item.id),
                    id,
                    now,
                ),
            },
    {
        match ensure_directory_with_history(
            self.paths.job_dir_path.as_str(),
            self.item.job_name.as_str(),
            self.paths.parent_path.as_str(),
            Some(self.item.id),
            existing,
            parent,
            id,
            now,
        ) {
            Ok(directory) => {
                let mut made: usize = 0;
                if let Some(dir) = category {
                    if dir.is_new {
                        made += 1;
                    }
                }
                if directory.is_new {
                    made += 1;
                }
                Ok(
                    PlacedJob {
                        item: self.item,
                        job: self.job,
                        directory,
                        made,
                        path: self.paths.job_dir_path,
                    },
                )
            },
            Err(e) => Err(e),
        }
    }
}

/// A job that has a directory. The first segments of its files come next.
#[derive(Clone, Debug, PartialEq, Eq)]
pub struct PlacedJob {
    pub item: QueueItem,
    pub job: NzbJob,
    pub directory: EnsuredDirectory,
    /// How many directories were made for the job: its own, and that of its category.
    pub made: usize,
    pub path: String,
}

impl PlacedJob {
    /// Plans which first segments are fetched.
    pub fn first_segments(&self, named_par2: &Vec<bool>, total_connections: usize) -> (r: FetchPlan)
        requires
            named_par2@.len() == self.job.files@.len(),
        ensures
            r.concurrency == if total_connections == 0 {
                1
            } else {
                total_connections
            },
            r.sequential == (r.concurrency <= fetch_first_segments::SEQUENTIAL_LIMIT),
            r.segments@.map_values(|s: FirstSegment| s@) == fetch_first_segments::first_segments(
                self.job.files@,
                named_par2@,
            ),
            fetch_first_segments::is_numbered(r.segments@),
    {
        fetch_first_segments::fetch_first_segments(
            &self.job,
            named_par2,
            total_connections,
        )
    }

    /// Sorts the files of the job by what their first segments showed, and picks the
    /// password. `from_name` is the password in the name of the NZB file.
    pub fn sort_files(self, infos: Vec<NzbFileInfo>, from_name: Option<String>) -> (r: SortedJob)
        ensures
            r.job_dir_id == self.directory.item.id,
            r.made == self.made,
            r.path == self.path,
            r.password == (match from_name {
                Some(p) => Some(p),
                None => self.job.password,
            }),
            r.rar@ == infos@.filter(|f: NzbFileInfo| f.is_rar),
            r.plain@ == infos@.filter(|f: NzbFileInfo| !f.is_rar && !f.is_par2),
    {
        let password = job_password(from_name, &self.job);
        let (rar, plain) = split_files(infos);
        SortedJob {
            job_dir_id: self.directory.item.id,
            made: self.made,
            path: self.path,
            password,
            rar,
            plain,
        }
    }
}

/// A job whose files are known. The headers of its archives come next, and then its files
/// are persisted.
#[derive(Clone, Debug, PartialEq, Eq)]
pub struct SortedJob {
    pub job_dir_id: u128,
    /// How many directories were made for the job.
    pub made: usize,
    pub path: String,
    pub password: Option<String>,
    pub rar: Vec<NzbFileInfo>,
    pub plain: Vec<NzbFileInfo>,
}

impl SortedJob {
    /// Collects the files that the archives hold.
    pub fn archived_files<V, E>(&self, outcomes: Vec<RarOutcome<V, E>>) -> (r: Result<
        Vec<ProcessedFile<V, E>>,
        PipelineError,
    >)
        requires
            outcomes@.len() == self.rar@.len(),
            forall|i: int, k: int|
                0 <= i < self.rar@.len() && 0 <= k < rar_processor::headers_of(
                    self.rar@[i],
                    outcomes@[i],
                ).len() ==> rar_processor::fits(
                    #[trigger] rar_processor::headers_of(self.rar@[i], outcomes@[i])[k],
                ),
        ensures
            ({
                let at = rar_processor::first_failure(self.rar@, outcomes@, 0);
                if at < self.rar@.len() {
                    r is Err && Some(r->Err_0@) == rar_processor::failure(
                        self.rar@[at],
                        outcomes@[at],
                    )
                } else {
                    r is Ok && rar_processor::are_described(
                        r->Ok_0@,
                        rar_processor::described(self.rar@, outcomes@),
                    )
                }
            }),
    {
        rar_processor::process_rar_files(&self.rar, outcomes)
    }

    /// Persists the files that are left of the job after the post-processing, below the
    /// directory of the job.
    pub fn finish(
        self,
        items: Vec<DavItem>,
        multipart: &Vec<Encoded>,
        nzb_files: &Vec<Encoded>,
        blob_ids: &Vec<u128>,
        links: Vec<DavItem>,
    ) -> (r: PersistPlan)
        requires
            blob_ids@.len() >= 2 * items@.len(),
            items@.len() + links@.len() + self.made <= usize::MAX,
        ensures
            is_persisting(
                r,
                items@,
                multipart@,
                nzb_files@,
                blob_ids@,
                links@,
                self.job_dir_id,
                self.made as int,
            ),
    {
        persist(items, multipart, nzb_files, blob_ids, links, self.job_dir_id, self.made)
    }
}

/// The items among what is persisted.
pub open spec fn inserted(p: Seq<Persisted>) -> Seq<DavItem>
    decreases p.len(),
{
    if p.len() == 0 {
        Seq::empty()
    } else {
        match p.last() {
            Persisted::Item(item) => inserted(p.drop_last()).push(item),
            _ => inserted(p.drop_last()),
        }
    }
}

proof fn lemma_inserted_add(a: Seq<Persisted>, b: Seq<Persisted>)
    ensures
        inserted(a + b) == inserted(a) + inserted(b),
    decreases b.len(),
{
    if b.len() == 0 {
        assert(a + b =~= a);
        assert(inserted(a) + inserted(b) =~= inserted(a));
    } else {
        assert((a + b).drop_last() =~= a + b.drop_last());
        lemma_inserted_add(a, b.drop_last());
        match b.last() {
            Persisted::Item(item) => {
                assert(inserted(a) + inserted(b.drop_last()).push(item) =~= (inserted(a)
                    + inserted(b.drop_last())).push(item));
            },
            _ => {},
        }
    }
}

/// Every file of a job that is persisted without failure is inserted once, in its order,
/// and changed in nothing but the reference to its metadata.
pub proof fn law_every_item_is_inserted_once(
    items: Seq<DavItem>,
    multipart: Seq<Encoded>,
    nzb_files: Seq<Encoded>,
    blob_ids: Seq<u128>,
)
    requires
        persisted_items(items, multipart, nzb_files, blob_ids).1 is None,
    ensures
        ({
            let rows = inserted(persisted_items(items, multipart, nzb_files, blob_ids).0);
            &&& rows.len() == items.len()
            &&& forall|i: int|
                0 <= i < items.len() ==> #[trigger] rows[i] == referring(
                    items[i],
                    if encoded_for(nzb_files, items[i].id) is Some {
                        Some(blob_ids[2 * i + 1])
                    } else if encoded_for(multipart, items[i].id) is Some {
                        Some(blob_ids[2 * i])
                    } else {
                        None
                    },
                )
        }),
    decreases items.len(),
{
    if items.len() > 0 {
        let n = items.len() - 1;
        let rest = items.drop_last();
        let (before, failed) = persisted_items(rest, multipart, nzb_files, blob_ids);
        law_every_item_is_inserted_once(rest, multipart, nzb_files, blob_ids);
        let (more, error) = persisted_item(
            items[n],
            encoded_for(multipart, items[n].id),
            encoded_for(nzb_files, items[n].id),
            blob_ids[2 * n],
            blob_ids[2 * n + 1],
        );
        lemma_inserted_add(before, more);
        reveal_with_fuel(inserted, 4);
        assert(inserted(more).len() == 1 && inserted(more)[0] == referring(
            items[n],
            if encoded_for(nzb_files, items[n].id) is Some {
                Some(blob_ids[2 * n + 1])
            } else if encoded_for(multipart, items[n].id) is Some {
                Some(blob_ids[2 * n])
            } else {
                None
            },
        ));
    }
}

proof fn lemma_inserted_links(links: Seq<DavItem>)
    ensures
        inserted(links.map_values(|i: DavItem| Persisted::Item(i))).len() == links.len(),
    decreases links.len(),
{
    let p = links.map_values(|i: DavItem| Persisted::Item(i));
    if links.len() > 0 {
        assert(p.drop_last() =~= links.drop_last().map_values(|i: DavItem| Persisted::Item(i)));
        lemma_inserted_links(links.drop_last());
    }
}

/// The writes that insert what `inserted` lists add so many rows, and no write removes one.
proof fn lemma_rows_added(t: Tables, w: Seq<PlannedWrite>)
    requires
        forall|i: int| 0 <= i < w.len() ==> !(#[trigger] persists(w[i]) is Other),
    ensures
        db::after_writes(t, w).items.len() == t.items.len() + inserted(all_persisted(w)).len(),
    decreases w.len(),
{
    if w.len() > 0 {
        let rest = w.drop_last();
        assert forall|i: int| 0 <= i < rest.len() implies !(#[trigger] persists(rest[i]) is Other) by {
            assert(rest[i] == w[i]);
        }
        lemma_rows_added(t, rest);
        assert(all_persisted(w).drop_last() =~= all_persisted(rest));
        assert(all_persisted(w).last() == persists(w.last()));
        assert(!(persists(w[w.len() - 1]) is Other));
    }
}

proof fn lemma_no_other(
    items: Seq<DavItem>,
    multipart: Seq<Encoded>,
    nzb_files: Seq<Encoded>,
    blob_ids: Seq<u128>,
)
    ensures
        forall|i: int|
            0 <= i < persisted_items(items, multipart, nzb_files, blob_ids).0.len() ==> !(
            #[trigger] persisted_items(items, multipart, nzb_files, blob_ids).0[i] is Other),
    decreases items.len(),
{
    if items.len() > 0 {
        lemma_no_other(items.drop_last(), multipart, nzb_files, blob_ids);
    }
}

/// The writes of a plan that succeeds are required, and add one row for each file and link.
pub proof fn lemma_persisted_rows(
    t: Tables,
    plan: PersistPlan,
    items: Seq<DavItem>,
    multipart: Seq<Encoded>,
    nzb_files: Seq<Encoded>,
    blob_ids: Seq<u128>,
    links: Seq<DavItem>,
    job_dir_id: u128,
    made: int,
)
    requires
        is_persisting(plan, items, multipart, nzb_files, blob_ids, links, job_dir_id, made),
        plan.result is Ok,
    ensures
        db::after_writes(t, plan.writes@).items.len() == t.items.len() + items.len() + links.len(),
        forall|k: int| 0 <= k < plan.writes@.len() ==> (#[trigger] plan.writes@[k]).required,
{
    let (files, error) = persisted_items(items, multipart, nzb_files, blob_ids);
    let linked = links.map_values(|i: DavItem| Persisted::Item(i));
    law_every_item_is_inserted_once(items, multipart, nzb_files, blob_ids);
    lemma_inserted_links(links);
    lemma_inserted_add(files, linked);
    lemma_no_other(items, multipart, nzb_files, blob_ids);
    let w = plan.writes@;
    assert forall|i: int| 0 <= i < w.len() implies !(#[trigger] persists(w[i]) is Other) by {
        assert(all_persisted(w)[i] == persists(w[i]));
        if i < files.len() {
            assert((files + linked)[i] == files[i]);
        } else {
            assert((files + linked)[i] == linked[i - files.len()]);
        }
    }
    assert forall|k: int| 0 <= k < w.len() implies (#[trigger] w[k]).required by {
        assert(!(persists(w[k]) is Other));
    }
    lemma_rows_added(t, w);
}

/// The number that a job ends with is that of the rows it added: those of the directories
/// that were made for it, and those of its files.
pub proof fn law_created_items_are_counted(
    t: Tables,
    category: Option<EnsuredDirectory>,
    directory: EnsuredDirectory,
    plan: PersistPlan,
    items: Seq<DavItem>,
    multipart: Seq<Encoded>,
    nzb_files: Seq<Encoded>,
    blob_ids: Seq<u128>,
    links: Seq<DavItem>,
    job_dir_id: u128,
)
    requires
        is_persisting(
            plan,
            items,
            multipart,
            nzb_files,
            blob_ids,
            links,
            job_dir_id,
            directories_made(category, directory),
        ),
        plan.result is Ok,
    ensures
        ({
            let with_category = match category {
                Some(dir) if dir.is_new => db::after_write(t, DbWrite::InsertItem(dir.item)),
                _ => t,
            };
            let with_directories = if directory.is_new {
                db::after_write(with_category, DbWrite::InsertItem(directory.item))
            } else {
                with_category
            };
            let after = db::after_writes(with_directories, plan.writes@);
            plan.result->Ok_0.items_created == after.items.len() - t.items.len()
        }),
{
    let with_category = match category {
        Some(dir) if dir.is_new => db::after_write(t, DbWrite::InsertItem(dir.item)),
        _ => t,
    };
    let with_directories = if directory.is_new {
        db::after_write(with_category, DbWrite::InsertItem(directory.item))
    } else {
        with_category
    };
    lemma_persisted_rows(
        with_directories,
        plan,
        items,
        multipart,
        nzb_files,
        blob_ids,
        links,
        job_dir_id,
        directories_made(category, directory),
    );
}

/// A directory that was ensured is found at its path once it is inserted, and is then not
/// made a second time.
pub proof fn law_ensured_directory_is_found(
    t: Tables,
    path: Seq<char>,
    name: Seq<char>,
    parent_path: Seq<char>,
    history_item: Option<u128>,
    dir: EnsuredDirectory,
    id: u128,
    now: Timestamp,
)
    requires
        is_ensured(
            Ok(dir),
            Ok(db::item_at(t.items, path)),
            Ok(db::item_at(t.items, parent_path)),
            path,
            name,
            parent_path,
            history_item,
            id,
            now,
        ),
    ensures
        db::item_at(t.items, path) is Some ==> !dir.is_new && db::item_at(t.items, path) == Some(
            dir.item,
        ),
        db::item_at(t.items, path) is None ==> dir.is_new && db::item_at(
            db::after_write(t, DbWrite::InsertItem(dir.item)).items,
            path,
        ) == Some(dir.item),
{
    db::lemma_item_at_push(t.items, dir.item, path);
}

/// A job lies directly below the directory of its category, and that below `/content/`.
pub proof fn law_job_lies_in_its_category(category: Seq<char>, job_name: Seq<char>)
    ensures
        text::starts_with(job_dir(category, job_name), category_dir(category)),
        text::starts_with(category_dir(category), CONTENT_ROOT@),
{
    let c = category_dir(category);
    assert(job_dir(category, job_name).subrange(0, c.len() as int) =~= c);
    assert(c.subrange(0, CONTENT_ROOT@.len() as int) =~= CONTENT_ROOT@);
}

} // verus!
