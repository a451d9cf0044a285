use std::collections::HashMap;

use nzbdav::dav::handler;
use nzbdav::dav::handler::{ByteRange, GetPlan, Payload, StreamPlan};
use nzbdav::dav::store;
use nzbdav::dav::store::{
    mime_from_name, queue_item_to_dav_item, split_path, BlobFormat, BodyStream, DatabaseStore,
    DavNode, UploadIds,
};
use nzbdav::db::{DbWrite, PlannedWrite};
use nzbdav::error::DavServerError;
use nzbdav::frontend::{frontend_handler, serve_file};
use nzbdav::models::{
    AesParams, DavItem, DavMultipartFile, DavNzbFile, FilePart, ItemSubType, ItemType, LongRange,
    QueueItem, Timestamp,
};
use nzbdav::seed::{root_item, seed_root_items, CONTENT_README, IDS_README, NZBS_README};

const NOW: Timestamp = Timestamp { secs: 1_700_000_000, nanos: 5 };

/// A database in memory that applies the planned writes.
#[derive(Default)]
struct Db {
    items: Vec<DavItem>,
    queue: Vec<QueueItem>,
    nzb_blobs: HashMap<u128, Vec<u8>>,
    next_id: u128,
}

impl Db {
    fn fresh(&mut self) -> u128 {
        self.next_id += 1;
        0x1000 + self.next_id
    }

    fn get_by_path(&self, path: &str) -> Option<DavItem> {
        self.items.iter().find(|i| i.path == path).cloned()
    }

    fn children(&self, path: &str) -> Vec<DavItem> {
        match self.get_by_path(path) {
            Some(parent) => {
                self.items.iter().filter(|i| i.parent_id == Some(parent.id)).cloned().collect()
            }
            None => vec![],
        }
    }

    fn delete_tree(&mut self, id: u128) {
        let below: Vec<u128> =
            self.items.iter().filter(|i| i.parent_id == Some(id)).map(|i| i.id).collect();
        for child in below {
            self.delete_tree(child);
        }
        self.items.retain(|i| i.id != id);
    }

    fn apply(&mut self, writes: Vec<PlannedWrite>) {
        for w in writes {
            match w.write {
                DbWrite::InsertItem(item) => self.items.push(item),
                DbWrite::DeleteItem(id) => self.delete_tree(id),
                DbWrite::RenameItem { id, name, path, parent_id } => {
                    for i in self.items.iter_mut().filter(|i| i.id == id) {
                        i.name = name.clone();
                        i.path = path.clone();
                        i.parent_id = Some(parent_id);
                    }
                }
                DbWrite::PutNzbBlob { id, data } => {
                    self.nzb_blobs.insert(id, data);
                }
                DbWrite::DeleteNzbBlob(id) => {
                    self.nzb_blobs.remove(&id);
                }
                DbWrite::InsertQueueItem(q) => self.queue.push(q),
                DbWrite::DeleteQueueItem(id) => self.queue.retain(|q| q.id != id),
                other => panic!("unexpected write {:?}", other),
            }
        }
    }

    fn seeded() -> Db {
        let mut db = Db::default();
        db.seed();
        db
    }

    fn seed(&mut self) {
        let writes = seed_root_items(Ok(self.get_by_path("/")), NOW).unwrap();
        self.apply(writes);
    }

    fn get_node(&self, path: &str) -> Option<DavNode> {
        let slashed = store::directory_path(path);
        store()
            .get_node(
                path,
                Ok(self.get_by_path(path)),
                Ok(self.get_by_path(&slashed)),
                Ok(store::named_id(path)
                    .and_then(|id| self.items.iter().find(|i| i.id == id).cloned())),
                Ok(self.queue.clone()),
            )
            .unwrap()
    }

    fn list_children(&self, path: &str) -> Vec<DavNode> {
        let dir = store::directory_path(path);
        store().list_children(path, Ok(self.children(&dir)), Ok(self.queue.clone())).unwrap()
    }

    fn mkcol(&mut self, path: &str) -> Result<(), DavServerError> {
        let id = self.fresh();
        let (parent, _) = split_path(path);
        let writes = store().mkcol(
            path,
            Ok(self.get_by_path(&parent)),
            Ok(self.get_by_path(path)),
            id,
            NOW,
        )?;
        self.apply(writes);
        Ok(())
    }

    fn put_nzb(&mut self, path: &str, data: &[u8]) -> Result<u128, DavServerError> {
        let id = self.fresh();
        let blob = self.fresh();
        let queue = self.fresh();
        let (parent, name) = split_path(path);
        let writes = store().put_nzb(
            path,
            data.to_vec(),
            Ok(self.get_by_path(&parent)),
            Ok(self.get_by_path(path)),
            UploadIds { item: id, blob, queue },
            name.trim_end_matches(".nzb").to_string(),
            NOW,
        )?;
        self.apply(writes);
        Ok(blob)
    }

    fn delete(&mut self, path: &str) -> Result<(), DavServerError> {
        let writes = store().delete(path, Ok(self.get_by_path(path)), Ok(self.queue.clone()))?;
        self.apply(writes);
        Ok(())
    }

    fn move_item(&mut self, from: &str, to: &str) -> Result<(), DavServerError> {
        let (parent, _) = split_path(to);
        let writes = store().move_item(
            from,
            to,
            Ok(self.get_by_path(from)),
            Ok(self.get_by_path(&parent)),
            Ok(self.get_by_path(to)),
        )?;
        self.apply(writes);
        Ok(())
    }

    fn copy_item(&mut self, from: &str, to: &str) -> Result<u128, DavServerError> {
        let id = self.fresh();
        let (parent, _) = split_path(to);
        let writes = store().copy_item(
            from,
            to,
            Ok(self.get_by_path(from)),
            Ok(self.get_by_path(&parent)),
            Ok(self.get_by_path(to)),
            id,
            NOW,
        )?;
        self.apply(writes);
        Ok(id)
    }
}

fn store() -> DatabaseStore {
    DatabaseStore::new(4)
}

fn queue_item(id: u128, name: &str, size: i64, total: i64, category: &str) -> QueueItem {
    QueueItem {
        id,
        created_at: NOW,
        file_name: name.to_string(),
        job_name: name.trim_end_matches(".nzb").to_string(),
        nzb_file_size: size,
        total_segment_bytes: total,
        category: category.to_string(),
        priority: 0,
        post_processing: -1,
        pause_until: None,
    }
}

fn file_item(sub_type: ItemSubType, size: Option<i64>) -> DavItem {
    let mut item = root_item("film.mkv", "/content/film.mkv", sub_type, Some(1), NOW);
    item.item_type = ItemType::UsenetFile;
    item.file_size = size;
    item
}

fn db_error() -> DavServerError {
    DavServerError::Database("disk I/O error".to_string())
}

#[test]
fn test_split_path_file() {
    let (parent, name) = split_path("/content/movies/file.mkv");
    assert_eq!(parent, "/content/movies/");
    assert_eq!(name, "file.mkv");
}

#[test]
fn test_split_path_directory() {
    let (parent, name) = split_path("/content/movies/");
    assert_eq!(parent, "/content/");
    assert_eq!(name, "movies");
}

#[test]
fn test_split_path_root_child() {
    let (parent, name) = split_path("/nzbs/");
    assert_eq!(parent, "/");
    assert_eq!(name, "nzbs");
}

#[test]
fn split_path_edges() {
    assert_eq!(split_path("/"), ("/".to_string(), "".to_string()));
    assert_eq!(split_path(""), ("/".to_string(), "".to_string()));
    assert_eq!(split_path("name"), ("/".to_string(), "name".to_string()));
    assert_eq!(split_path("/a//"), ("/".to_string(), "a".to_string()));
    assert_eq!(split_path("//a"), ("//".to_string(), "a".to_string()));
    assert_eq!(split_path("/ü/é/"), ("/ü/".to_string(), "é".to_string()));
}

#[test]
fn test_mime_from_name() {
    assert_eq!(mime_from_name("video.mkv"), "video/x-matroska");
    let nzb_mime = mime_from_name("file.nzb");
    assert!(!nzb_mime.is_empty());
    assert_eq!(mime_from_name("file.mp4"), "video/mp4");
    assert_eq!(mime_from_name("README"), "application/octet-stream");
}

#[test]
fn test_get_node_root() {
    let db = Db::seeded();
    let node = db.get_node("/");
    assert!(node.is_some(), "root node should exist after seeding");
    let node = node.unwrap();
    assert!(node.is_collection);
    assert_eq!(node.item.sub_type, ItemSubType::WebdavRoot);
}

#[test]
fn test_get_node_not_found() {
    let db = Db::seeded();
    assert!(db.get_node("/nonexistent").is_none());
}

#[test]
fn test_list_children_root() {
    let db = Db::seeded();
    let children = db.list_children("/");
    assert_eq!(children.len(), 4, "root should have 4 seeded children");
    let names: Vec<&str> = children.iter().map(|c| c.item.name.as_str()).collect();
    assert!(names.contains(&"nzbs"));
    assert!(names.contains(&"content"));
    assert!(names.contains(&"completed-symlinks"));
    assert!(names.contains(&".ids"));
}

#[test]
fn test_list_children_nzbs_includes_readme() {
    let db = Db::seeded();
    let children = db.list_children("/nzbs/");
    let readme = children.iter().find(|c| c.item.name == "README.txt");
    assert!(readme.is_some(), "/nzbs/ should contain README.txt");
}

#[test]
fn test_list_children_nzbs_includes_queue_items() {
    let mut db = Db::seeded();
    db.queue.push(queue_item(77, "test.nzb", 100, 5000, "default"));
    db.nzb_blobs.insert(77, b"<nzb/>".to_vec());

    let children = db.list_children("/nzbs/");
    let nzb_node = children.iter().find(|c| c.item.name == "test.nzb");
    assert!(nzb_node.is_some(), "queue item should appear under /nzbs/");
    let nzb_node = nzb_node.unwrap();
    assert!(!nzb_node.is_collection);
    assert_eq!(nzb_node.item.file_size, Some(100));
    assert_eq!(db.list_children("/nzbs").len(), 2);
    assert_eq!(db.list_children("/content/").len(), 1);
}

#[test]
fn test_get_node_virtual_queue_item() {
    let mut db = Db::seeded();
    let qi = queue_item(88, "download.nzb", 200, 8000, "");
    db.queue.push(qi.clone());
    let node = db.get_node("/nzbs/download.nzb");
    assert!(node.is_some(), "virtual queue item should be resolvable");
    assert_eq!(node.unwrap().item.id, qi.id);
    assert!(db.get_node("/nzbs/sub/download.nzb").is_none());
    assert!(db.get_node("/content/download.nzb").is_none());
}

#[test]
fn test_delete_virtual_queue_item() {
    let mut db = Db::seeded();
    let qi = queue_item(99, "removeme.nzb", 50, 1000, "");
    db.queue.push(qi.clone());
    db.nzb_blobs.insert(qi.id, b"<nzb/>".to_vec());

    db.delete("/nzbs/removeme.nzb").unwrap();

    assert!(db.queue.iter().find(|q| q.id == qi.id).is_none());
    assert!(!db.nzb_blobs.contains_key(&qi.id));
    assert!(db.get_node("/nzbs/removeme.nzb").is_none());
}

#[test]
fn test_get_node_readme() {
    let db = Db::seeded();
    let node = db.get_node("/content/README.txt");
    assert!(node.is_some(), "README.txt should exist in /content/");
    let node = node.unwrap();
    assert!(!node.is_collection);
    assert_eq!(node.item.sub_type, ItemSubType::ReadmeFile);
    assert!(node.item.nzb_blob_id.is_some());
    let blob = node.item.nzb_blob_id.unwrap();
    assert_eq!(db.nzb_blobs[&blob], CONTENT_README.as_bytes());
    assert_eq!(node.content_type, "text/plain");
}

#[test]
fn test_mkcol_and_list() {
    let mut db = Db::seeded();
    db.mkcol("/content/movies/").unwrap();

    let children = db.list_children("/content/");
    assert_eq!(children.len(), 2);
    let movies = children.iter().find(|c| c.item.name == "movies").expect("movies dir");
    assert!(movies.is_collection);

    assert!(db.get_node("/content/movies/").is_some());
    assert!(db.get_node("/content/movies").is_some());
}

#[test]
fn test_delete_item() {
    let mut db = Db::seeded();
    db.mkcol("/content/temp/").unwrap();
    assert!(db.get_node("/content/temp/").is_some());
    db.delete("/content/temp/").unwrap();
    assert!(db.get_node("/content/temp/").is_none());
}

#[test]
fn test_seed_creates_root_items() {
    let db = Db::seeded();

    let root = db.get_by_path("/").unwrap();
    assert_eq!(root.sub_type, ItemSubType::WebdavRoot);
    assert_eq!(root.id_prefix, "_");

    let children = db.children("/");
    assert_eq!(children.len(), 4);

    let nzbs = db.get_by_path("/nzbs/").unwrap();
    assert_eq!(nzbs.sub_type, ItemSubType::NzbsRoot);

    let content = db.get_by_path("/content/").unwrap();
    assert_eq!(content.sub_type, ItemSubType::ContentRoot);

    let symlinks = db.get_by_path("/completed-symlinks/").unwrap();
    assert_eq!(symlinks.sub_type, ItemSubType::SymlinkRoot);

    let ids = db.get_by_path("/.ids/").unwrap();
    assert_eq!(ids.sub_type, ItemSubType::IdsRoot);

    let content_readme = db.get_by_path("/content/README.txt").unwrap();
    assert_eq!(content_readme.sub_type, ItemSubType::ReadmeFile);
    assert!(content_readme.nzb_blob_id.is_some());
    assert!(content_readme.file_size.unwrap() > 0);
    assert_eq!(content_readme.file_size, Some(CONTENT_README.len() as i64));

    let nzbs_readme = db.get_by_path("/nzbs/README.txt").unwrap();
    assert_eq!(nzbs_readme.sub_type, ItemSubType::ReadmeFile);
    assert_eq!(nzbs_readme.file_size, Some(NZBS_README.len() as i64));

    let ids_readme = db.get_by_path("/.ids/README.txt").unwrap();
    assert_eq!(ids_readme.sub_type, ItemSubType::ReadmeFile);
    assert_eq!(ids_readme.file_size, Some(IDS_README.len() as i64));
    assert_eq!(ids_readme.parent_id, Some(ids.id));
}

#[test]
fn test_seed_is_idempotent() {
    let mut db = Db::default();
    db.seed();
    db.seed();

    assert_eq!(db.children("/").len(), 4);
    let readme_count = db.children("/content/").iter().filter(|c| c.name == "README.txt").count();
    assert_eq!(readme_count, 1);
    assert_eq!(db.items.len(), 8);
}

#[test]
fn test_seed_deterministic_ids() {
    let first = Db::seeded();
    let mut second = Db::default();
    let later = Timestamp { secs: 1_800_000_000, nanos: 0 };
    let writes = seed_root_items(Ok(None), later).unwrap();
    second.apply(writes);
    assert_eq!(first.get_by_path("/").unwrap().id, second.get_by_path("/").unwrap().id);
    for (a, b) in first.items.iter().zip(second.items.iter()) {
        assert_eq!(a.id, b.id);
    }
    // The identifier is the name-based one of RFC 4122 for the path.
    let space = uuid::Uuid::from_u128(nzbdav::seed::NAMESPACE);
    assert_eq!(space.to_string(), "6ba7b810-9dad-11d1-80b4-00c04fd430c8");
    let expected = uuid::Uuid::new_v5(&space, b"/nzbs/").as_u128();
    assert_eq!(first.get_by_path("/nzbs/").unwrap().id, expected);
}

#[test]
fn seed_passes_errors_on() {
    assert_eq!(seed_root_items(Err(db_error()), NOW), Err(db_error()));
}

#[test]
fn nodes_show_their_items() {
    let item = root_item("content", "/content/", ItemSubType::ContentRoot, None, NOW);
    let node = DavNode::from_item(item.clone());
    assert!(node.is_collection);
    assert_eq!(node.content_type, "httpd/unix-directory");
    let text = uuid::Uuid::from_u128(item.id).to_string();
    assert_eq!(node.etag, format!("\"{}\"", text));

    let virtual_item = queue_item_to_dav_item(&queue_item(5, "a b.nzb", 7, 9, ""));
    assert_eq!(virtual_item.path, "/nzbs/a b.nzb");
    assert_eq!(virtual_item.id_prefix, "q");
    assert_eq!(virtual_item.nzb_blob_id, Some(5));
    let shown = DavNode::with_type(virtual_item, "application/x-nzb".to_string());
    assert_eq!(shown.content_type, "application/x-nzb");
    assert!(!shown.is_collection);
}

#[test]
fn queries_that_fail_are_reported() {
    let s = store();
    assert_eq!(
        s.get_node("/a", Err(db_error()), Ok(None), Ok(None), Ok(vec![])),
        Err(db_error())
    );
    assert_eq!(
        s.get_node("/a", Ok(None), Err(db_error()), Ok(None), Ok(vec![])),
        Err(db_error())
    );
    assert_eq!(
        s.get_node("/nzbs/a", Ok(None), Ok(None), Ok(None), Err(db_error())),
        Err(db_error())
    );
    let by_id = "/.ids/00000000-0000-0000-0000-000000000007";
    assert_eq!(
        s.get_node(by_id, Ok(None), Ok(None), Err(db_error()), Ok(vec![])),
        Err(db_error())
    );
    // A query that the path does not need has no part in the result.
    assert_eq!(
        s.get_node("/a/", Ok(None), Err(db_error()), Err(db_error()), Err(db_error())),
        Ok(None)
    );
    assert_eq!(s.list_children("/a", Err(db_error()), Ok(vec![])), Err(db_error()));
    assert_eq!(s.list_children("/nzbs", Ok(vec![]), Err(db_error())), Err(db_error()));
    assert_eq!(s.list_children("/a", Ok(vec![]), Err(db_error())), Ok(vec![]));
    assert_eq!(s.delete("/a", Err(db_error()), Ok(vec![])), Err(db_error()));
    assert_eq!(
        s.delete("/a", Ok(None), Ok(vec![])),
        Err(DavServerError::NotFound("/a".to_string()))
    );
    assert_eq!(s.lookahead(), 4);
}

#[test]
fn directories_are_refused_with_reasons() {
    let mut db = Db::seeded();
    assert_eq!(
        db.mkcol("/missing/dir/"),
        Err(DavServerError::Conflict("parent not found: /missing/".to_string()))
    );
    db.mkcol("/content/a/").unwrap();
    assert_eq!(
        db.mkcol("/content/a/"),
        Err(DavServerError::MethodNotAllowed("collection already exists".to_string()))
    );
    let file = file_item(ItemSubType::NzbFile, None);
    assert_eq!(
        store().mkcol("/x/y/", Ok(Some(file)), Ok(None), 1, NOW),
        Err(DavServerError::Conflict("parent is not a collection".to_string()))
    );
}

#[test]
fn uploads_replace_what_is_there() {
    let mut db = Db::seeded();
    let first = db.put_nzb("/nzbs/up.nzb", b"<nzb>1</nzb>").unwrap();
    assert_eq!(db.nzb_blobs[&first], b"<nzb>1</nzb>");
    let second = db.put_nzb("/nzbs/up.nzb", b"<nzb>22</nzb>").unwrap();
    assert!(!db.nzb_blobs.contains_key(&first));
    assert_eq!(db.nzb_blobs[&second], b"<nzb>22</nzb>");
    let node = db.get_node("/nzbs/up.nzb").unwrap();
    assert_eq!(node.item.file_size, Some(13));
    assert_eq!(node.item.id_prefix, "u");
    assert_eq!(node.item.nzb_blob_id, Some(second));
    assert_eq!(db.items.iter().filter(|i| i.path == "/nzbs/up.nzb").count(), 1);
    assert_eq!(
        db.put_nzb("/none/up.nzb", b""),
        Err(DavServerError::Conflict("parent not found: /none/".to_string()))
    );
}

const NZB: &[u8] = b"<nzb><file subject=\"&quot;a.mkv&quot; (1/1)\"><segments><segment bytes=\"10\" number=\"1\">x@y</segment></segments></file></nzb>";

#[test]
fn uploaded_nzb_files_are_queued() {
    let mut db = Db::seeded();
    let blob = db.put_nzb("/nzbs/film.nzb", NZB).unwrap();
    assert_eq!(db.queue.len(), 1);
    let q = db.queue[0].clone();
    assert_eq!(q.file_name, "film.nzb");
    assert_eq!(q.job_name, "film");
    assert_eq!(q.total_segment_bytes, 10);
    assert_eq!(q.nzb_file_size, NZB.len() as i64);
    assert_eq!(q.category, "");
    assert_eq!(db.nzb_blobs[&q.id], NZB);
    assert_eq!(db.nzb_blobs[&blob], NZB);
    assert_eq!(db.get_node("/nzbs/film.nzb").unwrap().item.nzb_blob_id, Some(blob));
    // What is no NZB file, or lies elsewhere, is stored and not queued.
    db.put_nzb("/nzbs/notes.txt", b"notes").unwrap();
    db.put_nzb("/content/film.nzb", NZB).unwrap();
    assert_eq!(db.queue.len(), 1);
    assert!(db.get_node("/nzbs/notes.txt").is_some());
}

#[test]
fn items_are_found_by_their_identifier() {
    let db = Db::seeded();
    let item = db.get_by_path("/content/README.txt").unwrap();
    let etag = DavNode::from_item(item.clone()).etag;
    let node = db.get_node(&format!("/.ids/{}", etag.trim_matches('"'))).unwrap();
    assert_eq!(node.item, item);
    assert!(db.get_node("/.ids/00000000-0000-0000-0000-000000000007").is_none());
    assert!(db.get_node("/.ids/no-uuid").is_none());
    assert_eq!(store::named_id("/.ids/00000000-0000-0000-0000-00000000001f"), Some(31));
    assert_eq!(store::named_id("/.ids/00000000-0000-0000-0000-00000000001f/"), None);
}

#[test]
fn items_moved_onto_themselves_stay() {
    let mut db = Db::seeded();
    db.mkcol("/content/a/").unwrap();
    db.mkcol("/content/a/b/").unwrap();
    let before = db.items.clone();
    db.move_item("/content/a/", "/content/a/").unwrap();
    assert_eq!(db.items, before);
}

#[test]
fn deleting_a_directory_deletes_what_lies_below() {
    let mut db = Db::seeded();
    db.mkcol("/content/a/").unwrap();
    db.mkcol("/content/a/b/").unwrap();
    db.mkcol("/content/c/").unwrap();
    db.delete("/content/a/").unwrap();
    assert!(db.get_node("/content/a/b/").is_none());
    assert!(db.get_node("/content/c/").is_some());
}

#[test]
fn moved_items_are_found_at_their_destination() {
    let mut db = Db::seeded();
    db.mkcol("/content/a/").unwrap();
    db.put_nzb("/nzbs/x.nzb", b"x").unwrap();
    db.put_nzb("/content/a/y.nzb", b"y").unwrap();
    let before = db.get_by_path("/nzbs/x.nzb").unwrap();
    db.move_item("/nzbs/x.nzb", "/content/a/y.nzb").unwrap();
    assert!(db.get_node("/nzbs/x.nzb").is_none());
    let after = db.get_by_path("/content/a/y.nzb").unwrap();
    assert_eq!(after.id, before.id);
    assert_eq!(after.name, "y.nzb");
    assert_eq!(after.nzb_blob_id, before.nzb_blob_id);
    assert_eq!(after.parent_id, Some(db.get_by_path("/content/a/").unwrap().id));
    assert_eq!(
        db.move_item("/nzbs/x.nzb", "/content/z"),
        Err(DavServerError::NotFound("/nzbs/x.nzb".to_string()))
    );
    assert_eq!(
        db.move_item("/content/a/y.nzb", "/nowhere/z"),
        Err(DavServerError::Conflict("dest parent not found: /nowhere/".to_string()))
    );
}

#[test]
fn copied_items_share_their_blobs() {
    let mut db = Db::seeded();
    let blob = db.put_nzb("/nzbs/x.nzb", b"x").unwrap();
    let id = db.copy_item("/nzbs/x.nzb", "/content/z.nzb").unwrap();
    let copy = db.get_by_path("/content/z.nzb").unwrap();
    assert_eq!(copy.id, id);
    assert_eq!(copy.nzb_blob_id, Some(blob));
    assert_eq!(copy.id_prefix, "z");
    assert!(db.get_node("/nzbs/x.nzb").is_some());
    assert_eq!(
        db.copy_item("/none", "/content/z"),
        Err(DavServerError::NotFound("/none".to_string()))
    );
    assert_eq!(
        db.copy_item("/nzbs/x.nzb", "/nowhere/z"),
        Err(DavServerError::Conflict("dest parent not found: /nowhere/".to_string()))
    );
}

#[test]
fn bodies_come_from_the_metadata() {
    let s = store();
    let mut item = file_item(ItemSubType::MultipartFile, Some(1000));
    assert_eq!(
        s.get_body(&item, Ok(vec![])),
        Err(DavServerError::NotFound("item has no file blob".to_string()))
    );
    item.file_blob_id = Some(9);
    assert_eq!(store::body_blob(&item), Ok(9));
    assert_eq!(s.get_body(&item, Err(db_error())), Err(db_error()));
    assert_eq!(s.get_body(&item, Ok(vec![1, 2])), Ok((BlobFormat::Multipart, vec![1, 2])));
    item.sub_type = ItemSubType::NzbFile;
    assert_eq!(s.get_body(&item, Ok(vec![3])), Ok((BlobFormat::Nzb, vec![3])));
    item.sub_type = ItemSubType::ReadmeFile;
    assert_eq!(
        s.get_body(&item, Ok(vec![])),
        Err(DavServerError::Other(
            "unsupported sub_type for streaming: ReadmeFile".to_string()
        ))
    );

    let part = FilePart {
        segment_ids: vec!["a@b".to_string()],
        segment_id_byte_range: LongRange { start: 1, end: 5 },
        file_part_byte_range: LongRange { start: 0, end: 4 },
    };
    let aes = AesParams { key: vec![1], iv: vec![2], decoded_size: -1 };
    let meta = DavMultipartFile { file_parts: vec![part.clone()], aes_params: Some(aes) };
    match s.multipart_body(&item, Ok(meta)).unwrap() {
        BodyStream::Parts { parts, file_size, lookahead, decryption } => {
            assert_eq!(parts, vec![part]);
            assert_eq!(file_size, 1000);
            assert_eq!(lookahead, 4);
            assert_eq!(decryption.unwrap().decoded_size, u64::MAX);
        }
        other => panic!("unexpected stream {:?}", other),
    }
    assert_eq!(
        s.multipart_body(&item, Err("eof".to_string())),
        Err(DavServerError::Other("failed to deserialize multipart blob: eof".to_string()))
    );
    let meta = DavNzbFile { segment_ids: vec!["a@b".to_string(), "c@d".to_string()] };
    match s.nzb_body(&item, Ok(meta)).unwrap() {
        BodyStream::Segments(stream) => {
            assert_eq!(stream.segment_ids.len(), 2);
            assert_eq!(stream.position, 0);
        }
        other => panic!("unexpected stream {:?}", other),
    }
    assert_eq!(
        s.nzb_body(&item, Err("eof".to_string())),
        Err(DavServerError::Other("failed to deserialize nzb blob: eof".to_string()))
    );
}

#[test]
fn errors_have_their_status() {
    let text = "why".to_string();
    let cases = vec![
        (DavServerError::NotFound(text.clone()), 404),
        (DavServerError::Conflict(text.clone()), 409),
        (DavServerError::MethodNotAllowed(text.clone()), 405),
        (DavServerError::PreconditionFailed(text.clone()), 412),
        (DavServerError::Forbidden(text.clone()), 403),
        (DavServerError::InvalidRange(text.clone()), 416),
        (DavServerError::Database(text.clone()), 500),
        (DavServerError::Other(text.clone()), 500),
    ];
    for (error, status) in cases {
        let r = handler::error_response(error);
        assert_eq!(r.status, status);
        assert_eq!(r.payload, Payload::Text(text.clone()));
    }
}

#[test]
fn paths_are_decoded() {
    assert_eq!(handler::decode_path("/a%20b/%C3%BC"), "/a b/ü");
    assert_eq!(handler::decode_path("/plain/path"), "/plain/path");
    assert_eq!(
        handler::extract_destination(Some("http://host:8080/content/a%20b.mkv")),
        Some("/content/a b.mkv".to_string())
    );
    assert_eq!(
        handler::extract_destination(Some("/content/x")),
        Some("/content/x".to_string())
    );
    // Not an address: the text itself is the path.
    assert_eq!(handler::extract_destination(Some("/a b")), Some("/a b".to_string()));
    assert_eq!(handler::extract_destination(None), None);
    assert_eq!(handler::destination_path(Some("/x%2Fy".to_string()), "ignored"), "/x/y");
}

#[test]
fn test_propfind_hrefs_include_mount_prefix() {
    let db = Db::seeded();
    let r = handler::propfind(None, "/dav/", "/", Ok(db.get_node("/")), Ok(db.list_children("/")));
    assert_eq!(r.status, 207);
    assert_eq!(r.content_type, Some("application/xml; charset=utf-8".to_string()));
    match r.payload {
        Payload::Listing(entries) => {
            assert_eq!(entries.len(), 5);
            assert_eq!(entries[0].href, "/dav/");
            for e in &entries {
                assert!(e.href.starts_with("/dav/"));
            }
            assert!(entries.iter().any(|e| e.href == "/dav/content/"));
        }
        other => panic!("unexpected payload {:?}", other),
    }
}

#[test]
fn propfind_without_a_mount_and_with_depth_zero() {
    let db = Db::seeded();
    let node = db.get_node("/content");
    let r = handler::propfind(Some("0"), "/content", "/content", Ok(node), Err(db_error()));
    match r.payload {
        Payload::Listing(entries) => {
            assert_eq!(entries.len(), 1);
            assert_eq!(entries[0].href, "/content/");
        }
        other => panic!("unexpected payload {:?}", other),
    }
    assert_eq!(handler::propfind(None, "/x", "/x", Ok(None), Ok(vec![])).status, 404);
    assert_eq!(handler::propfind(None, "/x", "/x", Err(db_error()), Ok(vec![])).status, 500);
    let failed = handler::propfind(Some("1"), "/", "/", Ok(db.get_node("/")), Err(db_error()));
    assert_eq!(failed.status, 500);
    assert_eq!(handler::mount_prefix("/dav/content/a/", "/content/a"), "/dav");
    assert_eq!(handler::mount_prefix("/other", "/content/"), "");
}

#[test]
fn get_serves_files_only() {
    let db = Db::seeded();
    match handler::get(Ok(db.get_node("/content/")), 0) {
        GetPlan::Respond(r) => {
            assert_eq!(r.status, 405);
            assert_eq!(r.payload, Payload::Text("Cannot GET a collection".to_string()));
        }
        other => panic!("unexpected plan {:?}", other),
    }
    match handler::get(Ok(db.get_node("/content/README.txt")), 0) {
        GetPlan::NzbBlob { node, blob_id } => {
            let data = db.nzb_blobs[&blob_id].clone();
            let length = data.len() as u64;
            let r = handler::serve_nzb_blob(&node, Ok(data));
            assert_eq!(r.status, 200);
            assert_eq!(r.content_length, Some(length));
            assert_eq!(r.etag, Some(node.etag.clone()));
            assert_eq!(handler::serve_nzb_blob(&node, Err(db_error())).status, 500);
        }
        other => panic!("unexpected plan {:?}", other),
    }
    let mut item = file_item(ItemSubType::NzbFile, Some(1000));
    match handler::get(Ok(Some(DavNode::from_item(item.clone()))), 970) {
        GetPlan::Respond(r) => {
            assert_eq!(r.status, 404);
            assert_eq!(r.payload, Payload::Text("No content available".to_string()));
        }
        other => panic!("unexpected plan {:?}", other),
    }
    assert_eq!(
        handler::serve_nzb_blob(&DavNode::from_item(item.clone()), Ok(vec![])).status,
        404
    );
    item.file_blob_id = Some(3);
    match handler::get(Ok(Some(DavNode::from_item(item.clone()))), 970) {
        GetPlan::Stream { node: _, file_size } => assert_eq!(file_size, 970),
        other => panic!("unexpected plan {:?}", other),
    }
    item.sub_type = ItemSubType::MultipartFile;
    match handler::get(Ok(Some(DavNode::from_item(item))), 970) {
        GetPlan::Stream { node: _, file_size } => assert_eq!(file_size, 1000),
        other => panic!("unexpected plan {:?}", other),
    }
    assert!(matches!(handler::get(Ok(None), 0), GetPlan::Respond(r) if r.status == 404));
    assert!(matches!(handler::get(Err(db_error()), 0), GetPlan::Respond(r) if r.status == 500));
}

#[test]
fn head_announces_the_size() {
    let db = Db::seeded();
    let mut item = file_item(ItemSubType::NzbFile, Some(1000));
    item.file_blob_id = Some(3);
    let r = handler::head(Ok(Some(DavNode::from_item(item.clone()))), 970, Ok(vec![]));
    assert_eq!(r.status, 200);
    assert_eq!(r.content_length, Some(970));
    assert!(r.accept_ranges);
    assert_eq!(r.content_type, Some("video/x-matroska".to_string()));
    let r = handler::head(Ok(db.get_node("/")), 0, Ok(vec![]));
    assert_eq!(r.payload, Payload::Text("Cannot HEAD a collection".to_string()));
    assert_eq!(handler::head(Ok(None), 0, Ok(vec![])).status, 404);
    assert_eq!(handler::head(Err(db_error()), 0, Ok(vec![])).status, 500);
    item.file_blob_id = None;
    let r = handler::head(Ok(Some(DavNode::from_item(item))), 970, Ok(vec![]));
    assert_eq!(r.status, 404);
    assert_eq!(r.payload, Payload::Text("No content available".to_string()));
}

#[test]
fn head_of_an_nzb_file_is_get_without_a_body() {
    let mut db = Db::seeded();
    let blob = db.put_nzb("/nzbs/a.nzb", &[b'x'; 100]).unwrap();
    let node = db.get_node("/nzbs/a.nzb").unwrap();
    let data = db.nzb_blobs[&blob].clone();
    let got = handler::serve_nzb_blob(&node, Ok(data.clone()));
    let headed = handler::head(Ok(Some(node.clone())), 97, Ok(data));
    assert_eq!(headed.status, 200);
    assert_eq!(headed.content_length, Some(100));
    assert_eq!(headed.content_type, got.content_type);
    assert_eq!(headed.etag, got.etag);
    assert_eq!(headed.payload, Payload::Empty);
    assert_eq!(handler::head(Ok(Some(node)), 97, Err(db_error())).status, 500);
}

#[test]
fn methods_answer_with_their_status() {
    assert_eq!(handler::put(Some(Ok(()))).status, 201);
    assert_eq!(handler::put(None).payload, Payload::Text("Failed to read body".to_string()));
    assert_eq!(handler::put(Some(Err(db_error()))).status, 500);
    assert_eq!(handler::mkcol(Ok(())).status, 201);
    assert_eq!(handler::mkcol(Err(db_error())).status, 500);
    assert_eq!(handler::delete(Ok(())).status, 204);
    assert_eq!(handler::delete(Err(db_error())).status, 500);
    assert_eq!(handler::move_to(Some(Ok(()))).status, 204);
    assert_eq!(handler::move_to(None).status, 400);
    assert_eq!(handler::copy(Some(Ok(()))).status, 201);
    assert_eq!(
        handler::copy(None).payload,
        Payload::Text("Missing Destination header".to_string())
    );
    let r = handler::options();
    assert_eq!(
        r.allow,
        Some("OPTIONS, GET, HEAD, PUT, DELETE, PROPFIND, MKCOL, MOVE, COPY".to_string())
    );
    assert_eq!(r.dav, Some("1, 2".to_string()));
    assert_eq!(r.content_length, Some(0));
    assert_eq!(handler::MAX_UPLOAD, 50 * 1024 * 1024);
}

#[test]
fn ranges_are_served() {
    let mut item = file_item(ItemSubType::NzbFile, Some(1000));
    item.file_blob_id = Some(3);
    let node = DavNode::from_item(item.clone());
    let range = ByteRange { start: 10, end: 19 };
    assert_eq!(range.length(), 10);
    assert_eq!(handler::serve_streaming(970, None), StreamPlan::Full);
    assert_eq!(handler::serve_streaming(970, Some(Ok(vec![range]))), StreamPlan::Part(range));
    match handler::serve_streaming(970, Some(Err(db_error()))) {
        StreamPlan::Respond(r) => {
            assert_eq!(r.status, 416);
            assert_eq!(r.content_range, Some("bytes */970".to_string()));
        }
        other => panic!("unexpected plan {:?}", other),
    }
    let r = handler::partial_response(&node, 970, range, Ok(()));
    assert_eq!(r.status, 206);
    assert_eq!(r.content_range, Some("bytes 10-19/970".to_string()));
    assert_eq!(r.content_length, None);
    assert_eq!(r.payload, Payload::Stream);
    assert!(r.accept_ranges);

    item.sub_type = ItemSubType::MultipartFile;
    let node = DavNode::from_item(item);
    let r = handler::partial_response(&node, 1000, range, Ok(()));
    assert_eq!(r.status, 206);
    assert_eq!(r.content_range, Some("bytes 10-19/1000".to_string()));
    assert_eq!(r.content_length, Some(10));
    let failed = handler::seek_error("closed");
    assert_eq!(failed, DavServerError::Other("seek error: closed".to_string()));
    assert_eq!(handler::partial_response(&node, 1000, range, Err(failed)).status, 500);
    let r = handler::full_response(&node, Ok(()));
    assert_eq!(r.status, 200);
    assert_eq!(r.payload, Payload::Stream);
    assert!(!r.accept_ranges);
    assert_eq!(handler::full_response(&node, Err(db_error())).status, 500);
}

#[test]
fn ranged_bodies_take_the_length_of_the_range() {
    let range = ByteRange { start: 5, end: 9 };
    let mut item = file_item(ItemSubType::MultipartFile, Some(100));
    assert_eq!(
        handler::build_ranged_body(&item, Ok(vec![])),
        Err(DavServerError::NotFound("no file blob".to_string()))
    );
    item.file_blob_id = Some(1);
    assert_eq!(
        handler::build_ranged_body(&item, Ok(vec![7])),
        Ok((BlobFormat::Multipart, vec![7]))
    );
    assert_eq!(handler::build_ranged_body(&item, Err(db_error())), Err(db_error()));
    let meta = DavMultipartFile { file_parts: vec![], aes_params: None };
    let body = handler::ranged_parts(&store(), &item, Ok(meta), range).unwrap();
    assert_eq!((body.start, body.length), (5, 5));
    assert_eq!(
        handler::ranged_parts(&store(), &item, Err("bad".to_string()), range),
        Err(DavServerError::Other("deserialize error: bad".to_string()))
    );
    item.sub_type = ItemSubType::NzbFile;
    let meta = DavNzbFile { segment_ids: vec![] };
    let body = handler::ranged_segments(&store(), &item, Ok(meta.clone()), range).unwrap();
    assert_eq!((body.start, body.length), (5, 5));
    match body.stream {
        BodyStream::Segments(s) => assert_eq!(s.position, 5),
        other => panic!("unexpected stream {:?}", other),
    }
    let far = ByteRange { start: 5000, end: 6000 };
    match handler::ranged_segments(&store(), &item, Ok(meta), far).unwrap().stream {
        BodyStream::Segments(s) => assert_eq!(s.position, 100),
        other => panic!("unexpected stream {:?}", other),
    }
    assert_eq!(
        handler::ranged_segments(&store(), &item, Err("bad".to_string()), range),
        Err(DavServerError::Other("deserialize error: bad".to_string()))
    );
    item.sub_type = ItemSubType::Directory;
    assert_eq!(
        handler::build_ranged_body(&item, Ok(vec![])),
        Err(DavServerError::Other("unsupported sub_type for range: Directory".to_string()))
    );
}

#[test]
fn frontend_falls_back_to_the_start_page() {
    assert_eq!(frontend_handler("app.js".to_string(), true), "app.js");
    assert_eq!(frontend_handler("queue/7".to_string(), false), "index.html");
    let r = serve_file("index.html", Some(vec![1, 2]));
    assert_eq!(r.status, 200);
    assert_eq!(r.content_type, Some("text/html".to_string()));
    assert_eq!(r.payload, Payload::Data(vec![1, 2]));
    let r = serve_file("index.html", None);
    assert_eq!(r.status, 404);
    assert_eq!(r.payload, Payload::Text("Not found".to_string()));
}
