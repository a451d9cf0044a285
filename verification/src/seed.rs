//! The directories and files that every filesystem starts with.

use vstd::prelude::*;
use vstd::utf8::encode_utf8;

use crate::db;
use crate::db::{DbWrite, PlannedWrite, Tables};
use crate::error::DavServerError;
use crate::ids;
use crate::models::{DavItem, ItemSubType, ItemType, Timestamp};
use crate::num;
use crate::text;

verus! {

/// The namespace of the identifiers that are derived from paths.
pub const NAMESPACE: u128 = 0x6ba7b810_9dad_11d1_80b4_00c04fd430c8;

/// The text of `/content/README.txt`.
pub const CONTENT_README: &'static str = "About /content

This directory contains all streamable files that have finished processing.
Files are organized by category and job name.

Files are served by streaming directly from Usenet on demand - no local storage is used.
Content can be accessed via any WebDAV client or via rclone mount.
";

/// The text of `/nzbs/README.txt`.
pub const NZBS_README: &'static str = "About /nzbs

This directory mirrors the nzbdav queue.
- NZBs currently in the queue can be downloaded from this directory.
- Upload an NZB file here to add it to the processing queue.
- Delete an NZB to remove it from the queue.
";

/// The text of `/.ids/README.txt`.
pub const IDS_README: &'static str = "About /.ids

This directory provides ID-based file access.
Files can be accessed by their UUID without knowing the full path.
";

/// The identifier that is derived from a text.
pub open spec fn id_of(name: Seq<char>) -> u128 {
    ids::uuid_v5(NAMESPACE, encode_utf8(name))
}

/// Derives an identifier from a text.
fn derive_id(name: &str) -> (r: u128)
    ensures
        r == id_of(name@),
{
    ids::new_v5(NAMESPACE, name.as_bytes())
}

/// Whether an item is the one for a directory that the filesystem starts with.
pub open spec fn is_root_item(
    item: DavItem,
    name: Seq<char>,
    path: Seq<char>,
    sub_type: ItemSubType,
    parent: Option<u128>,
    now: Timestamp,
) -> bool {
    &&& item.id == id_of(path)
    &&& item.id_prefix@ == seq![text::first_or(name, '_')]
    &&& item.created_at == now
    &&& item.parent_id == parent
    &&& item.name@ == name
    &&& item.file_size is None
    &&& item.item_type == ItemType::Directory
    &&& item.sub_type == sub_type
    &&& item.path@ == path
    &&& item.is_bare()
}

/// Builds the item for a directory that the filesystem starts with.
pub fn root_item(
    name: &str,
    path: &str,
    sub_type: ItemSubType,
    parent_id: Option<u128>,
    now: Timestamp,
) -> (r: DavItem)
    ensures
        is_root_item(r, name@, path@, sub_type, parent_id, now),
{
    let prefix = text::first_char(name, '_');
    DavItem {
        id: derive_id(path),
        id_prefix: text::of_char(prefix),
        created_at: now,
        parent_id,
        name: name.to_string(),
        file_size: None,
        item_type: ItemType::Directory,
        sub_type,
        path: path.to_string(),
        release_date: None,
        last_health_check: None,
        next_health_check: None,
        history_item_id: None,
        file_blob_id: None,
        nzb_blob_id: None,
    }
}

/// Whether an item is the one for the README file of a directory.
pub open spec fn is_readme(
    item: DavItem,
    path: Seq<char>,
    parent: Seq<char>,
    content: Seq<char>,
    now: Timestamp,
) -> bool {
    &&& item.id == id_of("readme:"@ + path)
    &&& item.id_prefix@ == "R"@
    &&& item.created_at == now
    &&& item.parent_id == Some(id_of(parent))
    &&& item.name@ == "README.txt"@
    &&& item.file_size == Some(num::as_signed(encode_utf8(content).len() as u64) as i64)
    &&& item.item_type == ItemType::UsenetFile
    &&& item.sub_type == ItemSubType::ReadmeFile
    &&& item.path@ == path
    &&& item.release_date is None
    &&& item.last_health_check is None
    &&& item.next_health_check is None
    &&& item.history_item_id is None
    &&& item.file_blob_id is None
    &&& item.nzb_blob_id == Some(id_of(path))
}

/// The directories below the root: name, path and purpose.
pub open spec fn root_children() -> Seq<(Seq<char>, Seq<char>, ItemSubType)> {
    seq![
        ("nzbs"@, "/nzbs/"@, ItemSubType::NzbsRoot),
        ("content"@, "/content/"@, ItemSubType::ContentRoot),
        ("completed-symlinks"@, "/completed-symlinks/"@, ItemSubType::SymlinkRoot),
        (".ids"@, "/.ids/"@, ItemSubType::IdsRoot),
    ]
}

/// The README files: path, directory and text.
pub open spec fn readmes() -> Seq<(Seq<char>, Seq<char>, Seq<char>)> {
    seq![
        ("/content/README.txt"@, "/content/"@, CONTENT_README@),
        ("/nzbs/README.txt"@, "/nzbs/"@, NZBS_README@),
        ("/.ids/README.txt"@, "/.ids/"@, IDS_README@),
    ]
}

/// Whether a write inserts the directory number `i` below the root.
pub open spec fn inserts_child(w: PlannedWrite, i: int, now: Timestamp) -> bool {
    let (name, path, sub_type) = root_children()[i];
    &&& w.required
    &&& w.write matches DbWrite::InsertItem(item)
    &&& is_root_item(item, name, path, sub_type, Some(id_of("/"@)), now)
}

/// Whether a write stores the text of README file number `i`.
pub open spec fn stores_readme(w: PlannedWrite, i: int) -> bool {
    let (path, parent, content) = readmes()[i];
    &&& w.required
    &&& w.write matches DbWrite::PutNzbBlob { id, data }
    &&& id == id_of(path)
    &&& data@ == encode_utf8(content)
}

/// Whether a write inserts README file number `i`.
pub open spec fn inserts_readme(w: PlannedWrite, i: int, now: Timestamp) -> bool {
    let (path, parent, content) = readmes()[i];
    &&& w.required
    &&& w.write matches DbWrite::InsertItem(item)
    &&& is_readme(item, path, parent, content, now)
}

/// Whether writes seed an empty filesystem: the root, the directories below it, and for
/// each README file its text and its item.
pub open spec fn is_seeding(w: Seq<PlannedWrite>, now: Timestamp) -> bool {
    &&& w.len() == 11
    &&& w[0].required
    &&& w[0].write matches DbWrite::InsertItem(root)
    &&& is_root_item(root, ""@, "/"@, ItemSubType::WebdavRoot, None, now)
    &&& inserts_child(w[1], 0, now)
    &&& inserts_child(w[2], 1, now)
    &&& inserts_child(w[3], 2, now)
    &&& inserts_child(w[4], 3, now)
    &&& stores_readme(w[5], 0)
    &&& inserts_readme(w[6], 0, now)
    &&& stores_readme(w[7], 1)
    &&& inserts_readme(w[8], 1, now)
    &&& stores_readme(w[9], 2)
    &&& inserts_readme(w[10], 2, now)
}

/// Plans a README file: its text and its item.
fn seed_readme(
    writes: &mut Vec<PlannedWrite>,
    path: &str,
    parent: &str,
    content: &str,
    now: Timestamp,
)
    ensures
        final(writes)@.len() == old(writes)@.len() + 2,
        final(writes)@.subrange(0, old(writes)@.len() as int) == old(writes)@,
        ({
            let blob = final(writes)@[old(writes)@.len() as int];
            &&& blob.required
            &&& blob.write matches DbWrite::PutNzbBlob { id, data }
            &&& id == id_of(path@)
            &&& data@ == encode_utf8(content@)
        }),
        ({
            let last = final(writes)@.last();
            &&& last.required
            &&& last.write matches DbWrite::InsertItem(item)
            &&& is_readme(item, path@, parent@, content@, now)
        }),
{
    let blob_id: u128 = derive_id(path);
    let key = text::join("readme:", path);
    let size: i64 = num::to_signed(content.as_bytes().len() as u64);
    let item = DavItem {
        id: derive_id(key.as_str()),
        id_prefix: "R".to_string(),
        created_at: now,
        parent_id: Some(derive_id(parent)),
        name: "README.txt".to_string(),
        file_size: Some(size),
        item_type: ItemType::UsenetFile,
        sub_type: ItemSubType::ReadmeFile,
        path: path.to_string(),
        release_date: None,
        last_health_check: None,
        next_health_check: None,
        history_item_id: None,
        file_blob_id: None,
        nzb_blob_id: Some(blob_id),
    };
    let data = content.as_bytes_vec();
    writes.push(db::required(DbWrite::PutNzbBlob { id: blob_id, data }));
    writes.push(db::required(DbWrite::InsertItem(item)));
    assert(writes@.subrange(0, old(writes)@.len() as int) =~= old(writes)@);
}

/// Seeds the filesystem, unless it has a root already.
pub fn seed_root_items(root: Result<Option<DavItem>, DavServerError>, now: Timestamp) -> (r: Result<
    Vec<PlannedWrite>,
    DavServerError,
>)
    ensures
        match root {
            Err(e) => r is Err && r->Err_0 == e,
            Ok(Some(_)) => r is Ok && r->Ok_0@.len() == 0,
            Ok(None) => r is Ok && is_seeding(r->Ok_0@, now),
        },
{
    let mut writes: Vec<PlannedWrite> = Vec::new();
    match root {
        Err(e) => {
            return Err(e);
        },
        Ok(Some(_)) => {
            return Ok(writes);
        },
        Ok(None) => {},
    }
    let root = root_item("", "/", ItemSubType::WebdavRoot, None, now);
    let id: u128 = root.id;
    let nzbs = root_item("nzbs", "/nzbs/", ItemSubType::NzbsRoot, Some(id), now);
    let content = root_item("content", "/content/", ItemSubType::ContentRoot, Some(id), now);
    let symlinks = root_item(
        "completed-symlinks",
        "/completed-symlinks/",
        ItemSubType::SymlinkRoot,
        Some(id),
        now,
    );
    let by_id = root_item(".ids", "/.ids/", ItemSubType::IdsRoot, Some(id), now);
    writes.push(db::required(DbWrite::InsertItem(root)));
    writes.push(db::required(DbWrite::InsertItem(nzbs)));
    writes.push(db::required(DbWrite::InsertItem(content)));
    writes.push(db::required(DbWrite::InsertItem(symlinks)));
    writes.push(db::required(DbWrite::InsertItem(by_id)));
    let ghost directories = writes@;
    seed_readme(&mut writes, "/content/README.txt", "/content/", CONTENT_README, now);
    let ghost first = writes@;
    seed_readme(&mut writes, "/nzbs/README.txt", "/nzbs/", NZBS_README, now);
    let ghost second = writes@;
    seed_readme(&mut writes, "/.ids/README.txt", "/.ids/", IDS_README, now);
    proof {
        assert(forall|i: int| 0 <= i < 9 ==> writes@[i] == writes@.subrange(0, 9)[i]);
        assert(forall|i: int| 0 <= i < 7 ==> second[i] == second.subrange(0, 7)[i]);
        assert(forall|i: int| 0 <= i < 5 ==> first[i] == first.subrange(0, 5)[i]);
    }
    Ok(writes)
}

/// The items that seeding inserts.
pub open spec fn seeded_items(w: Seq<PlannedWrite>) -> Seq<DavItem> {
    seq![
        w[0].write->InsertItem_0,
        w[1].write->InsertItem_0,
        w[2].write->InsertItem_0,
        w[3].write->InsertItem_0,
        w[4].write->InsertItem_0,
        w[6].write->InsertItem_0,
        w[8].write->InsertItem_0,
        w[10].write->InsertItem_0,
    ]
}

/// The tables after the first writes, and after the one that follows.
proof fn lemma_step(t: Tables, w: Seq<PlannedWrite>, k: int)
    requires
        0 <= k < w.len(),
    ensures
        db::after_writes(t, w.take(k + 1)) == db::after_write(
            db::after_writes(t, w.take(k)),
            w[k].write,
        ),
{
    assert(w.take(k + 1).drop_last() =~= w.take(k));
}

/// Seeding appends its items and stores its texts.
proof fn lemma_seeded(t: Tables, w: Seq<PlannedWrite>, now: Timestamp)
    requires
        is_seeding(w, now),
    ensures
        db::after_writes(t, w).items == t.items + seeded_items(w),
        db::after_writes(t, w).queue == t.queue,
        db::after_writes(t, w).history == t.history,
{
    assert(w.take(0) =~= Seq::<PlannedWrite>::empty());
    lemma_step(t, w, 0);
    lemma_step(t, w, 1);
    lemma_step(t, w, 2);
    lemma_step(t, w, 3);
    lemma_step(t, w, 4);
    lemma_step(t, w, 5);
    lemma_step(t, w, 6);
    lemma_step(t, w, 7);
    lemma_step(t, w, 8);
    lemma_step(t, w, 9);
    lemma_step(t, w, 10);
    assert(w.take(11) =~= w);
    assert(db::after_writes(t, w).items =~= t.items + seeded_items(w));
}

/// Seeding twice is seeding once: after it there is a root, so that a second seeding finds
/// one and writes nothing.
pub proof fn law_seeding_is_idempotent(t: Tables, w: Seq<PlannedWrite>, now: Timestamp)
    requires
        is_seeding(w, now),
    ensures
        db::item_at(db::after_writes(t, w).items, "/"@) is Some,
{
    lemma_seeded(t, w, now);
    let items = db::after_writes(t, w).items;
    db::lemma_item_at(items, "/"@);
    assert(items[t.items.len() as int] == seeded_items(w)[0]);
}

/// The identifiers that seeding gives do not depend on when it is done.
pub proof fn law_seeded_ids_are_stable(
    w: Seq<PlannedWrite>,
    now: Timestamp,
    other: Seq<PlannedWrite>,
    later: Timestamp,
)
    requires
        is_seeding(w, now),
        is_seeding(other, later),
    ensures
        forall|i: int|
            0 <= i < seeded_items(w).len() ==> (#[trigger] seeded_items(w)[i]).id == seeded_items(
                other,
            )[i].id,
{
}

/// The paths that seeding fills are all different.
proof fn lemma_seeded_paths(w: Seq<PlannedWrite>, now: Timestamp)
    requires
        is_seeding(w, now),
    ensures
        db::paths_differ(seeded_items(w)),
{
    reveal_strlit("/");
    reveal_strlit("/nzbs/");
    reveal_strlit("/content/");
    reveal_strlit("/completed-symlinks/");
    reveal_strlit("/.ids/");
    reveal_strlit("/content/README.txt");
    reveal_strlit("/nzbs/README.txt");
    reveal_strlit("/.ids/README.txt");
    let s = seeded_items(w);
    // The lengths tell all apart but the paths of `/nzbs/` and `/.ids/` and their files.
    assert(s[0].path@.len() == 1 && s[1].path@.len() == 6 && s[2].path@.len() == 9);
    assert(s[3].path@.len() == 20 && s[4].path@.len() == 6 && s[5].path@.len() == 19);
    assert(s[1].path@[1] == 'n' && s[4].path@[1] == '.');
    assert(s[6].path@.len() == 16 && s[6].path@[1] == 'n');
    assert(s[7].path@.len() == 16 && s[7].path@[1] == '.');
    assert forall|i: int, j: int| 0 <= i < j < s.len() implies (#[trigger] s[i]).path@ != (
    #[trigger] s[j]).path@ by {
        if (i == 1 && j == 4) || (i == 6 && j == 7) {
            assert(s[i].path@[1] != s[j].path@[1]);
        } else {
            assert(s[i].path@.len() != s[j].path@.len());
        }
    }
}

/// In an empty filesystem every seeded item is found at its path.
pub proof fn law_seeded_items_are_found(t: Tables, w: Seq<PlannedWrite>, now: Timestamp)
    requires
        is_seeding(w, now),
        t.items.len() == 0,
    ensures
        db::paths_differ(db::after_writes(t, w).items),
        forall|i: int|
            0 <= i < seeded_items(w).len() ==> db::item_at(
                db::after_writes(t, w).items,
                (#[trigger] seeded_items(w)[i]).path@,
            ) == Some(seeded_items(w)[i]),
{
    lemma_seeded(t, w, now);
    lemma_seeded_paths(w, now);
    let s = seeded_items(w);
    assert(db::after_writes(t, w).items =~= s);
    assert forall|i: int| 0 <= i < s.len() implies db::item_at(s, (#[trigger] s[i]).path@) == Some(
        s[i],
    ) by {
        assert(s.contains(s[i]));
        db::lemma_item_at_unique(s, s[i]);
    }
}

/// The root of an empty filesystem gets four directories and nothing else, as long as no
/// other directory shares its identifier.
pub proof fn law_seeded_root_has_four_children(t: Tables, w: Seq<PlannedWrite>, now: Timestamp)
    requires
        is_seeding(w, now),
        t.items.len() == 0,
        id_of("/content/"@) != id_of("/"@),
        id_of("/nzbs/"@) != id_of("/"@),
        id_of("/.ids/"@) != id_of("/"@),
    ensures
        crate::dav::laws::children(db::after_writes(t, w).items, id_of("/"@))
            == seeded_items(w).subrange(1, 5),
{
    lemma_seeded(t, w, now);
    let s = seeded_items(w);
    let keep = |i: DavItem| i.parent_id == Some(id_of("/"@));
    assert(db::after_writes(t, w).items =~= s);
    reveal(Seq::filter);
    assert(s.take(0).filter(keep) =~= Seq::empty());
    assert(s.take(1).drop_last() =~= s.take(0));
    assert(s.take(2).drop_last() =~= s.take(1));
    assert(s.take(3).drop_last() =~= s.take(2));
    assert(s.take(4).drop_last() =~= s.take(3));
    assert(s.take(5).drop_last() =~= s.take(4));
    assert(s.take(6).drop_last() =~= s.take(5));
    assert(s.take(7).drop_last() =~= s.take(6));
    assert(s.drop_last() =~= s.take(7));
    assert(s.take(1).filter(keep) =~= Seq::empty());
    assert(s.take(2).filter(keep) =~= seq![s[1]]);
    assert(s.take(3).filter(keep) =~= seq![s[1], s[2]]);
    assert(s.take(4).filter(keep) =~= seq![s[1], s[2], s[3]]);
    assert(s.take(5).filter(keep) =~= seq![s[1], s[2], s[3], s[4]]);
    assert(s.take(6).filter(keep) =~= s.take(5).filter(keep));
    assert(s.take(7).filter(keep) =~= s.take(6).filter(keep));
    assert(s.filter(keep) =~= s.take(7).filter(keep));
    assert(s.subrange(1, 5) =~= seq![s[1], s[2], s[3], s[4]]);
}

/// Whether an item is an empty directory of this purpose.
pub open spec fn is_directory(
    item: DavItem,
    path: Seq<char>,
    name: Seq<char>,
    sub_type: ItemSubType,
    now: Timestamp,
) -> bool {
    &&& item.path@ == path
    &&& item.name@ == name
    &&& item.sub_type == sub_type
    &&& item.item_type == ItemType::Directory
    &&& item.created_at == now
    &&& item.file_size is None
    &&& item.file_blob_id is None
    &&& item.nzb_blob_id is None
    &&& item.history_item_id is None
    &&& item.release_date is None
    &&& item.last_health_check is None
    &&& item.next_health_check is None
}

/// A directory that the filesystem starts with is the one that is asked for, under an
/// identifier that its path alone decides.
pub proof fn law_roots_are_as_asked(
    name: &str,
    path: &str,
    sub_type: ItemSubType,
    parent: Option<u128>,
    now: Timestamp,
    other_name: &str,
    other_type: ItemSubType,
    other_parent: Option<u128>,
    later: Timestamp,
    r: DavItem,
    s: DavItem,
)
    requires
        call_ensures(root_item, (name, path, sub_type, parent, now), r),
        call_ensures(root_item, (other_name, path, other_type, other_parent, later), s),
    ensures
        is_directory(r, path@, name@, sub_type, now),
        r.parent_id == parent,
        r.id_prefix@.len() == 1,
        name@.len() > 0 ==> r.id_prefix@[0] == name@[0],
        name@.len() == 0 ==> r.id_prefix@[0] == '_',
        r.id == s.id,
        r.id == ids::uuid_v5(0x6ba7b810_9dad_11d1_80b4_00c04fd430c8, encode_utf8(path@)),
{
}

/// Whether an item is a README file in a directory, with its text stored as its NZB file.
pub open spec fn is_readme_in(t: Tables, item: DavItem, dir: DavItem, content: Seq<char>) -> bool {
    &&& item.parent_id == Some(dir.id)
    &&& item.name@ == "README.txt"@
    &&& item.path@ == dir.path@ + "README.txt"@
    &&& item.id_prefix@ == "R"@
    &&& item.item_type == ItemType::UsenetFile
    &&& item.sub_type == ItemSubType::ReadmeFile
    &&& item.created_at == dir.created_at
    &&& item.file_blob_id is None
    &&& item.history_item_id is None
    &&& item.release_date is None
    &&& item.last_health_check is None
    &&& item.next_health_check is None
    &&& encode_utf8(content).len() <= i64::MAX ==> (item.file_size matches Some(n) && n
        == encode_utf8(content).len())
    &&& item.nzb_blob_id matches Some(id) && t.nzb_blobs.contains_key(id)
}

/// An empty filesystem is seeded with its root, the four directories below it, and a README
/// file in three of them.
pub proof fn law_seeding_makes_the_tree(
    t: Tables,
    now: Timestamp,
    r: Result<Vec<PlannedWrite>, DavServerError>,
)
    requires
        t.items.len() == 0,
        call_ensures(seed_root_items, (Ok(None), now), r),
    ensures
        r is Ok,
        forall|k: int| 0 <= k < r->Ok_0@.len() ==> (#[trigger] r->Ok_0@[k]).required,
        ({
            let after = db::after_writes(t, r->Ok_0@);
            let s = after.items;
            &&& s.len() == 8
            &&& is_directory(s[0], "/"@, ""@, ItemSubType::WebdavRoot, now)
            &&& s[0].parent_id is None
            &&& is_directory(s[1], "/nzbs/"@, "nzbs"@, ItemSubType::NzbsRoot, now)
            &&& is_directory(s[2], "/content/"@, "content"@, ItemSubType::ContentRoot, now)
            &&& is_directory(
                s[3],
                "/completed-symlinks/"@,
                "completed-symlinks"@,
                ItemSubType::SymlinkRoot,
                now,
            )
            &&& is_directory(s[4], "/.ids/"@, ".ids"@, ItemSubType::IdsRoot, now)
            &&& forall|i: int|
                1 <= i <= 4 ==> (#[trigger] s[i]).parent_id == Some(s[0].id)
            &&& is_readme_in(after, s[5], s[2], CONTENT_README@)
            &&& is_readme_in(after, s[6], s[1], NZBS_README@)
            &&& is_readme_in(after, s[7], s[4], IDS_README@)
            &&& after.queue == t.queue
            &&& after.history == t.history
        }),
{
    let w = r->Ok_0@;
    lemma_seeded(t, w, now);
    let after = db::after_writes(t, w);
    assert(after.items =~= seeded_items(w));
    reveal_strlit("README.txt");
    reveal_strlit("/content/");
    reveal_strlit("/content/README.txt");
    reveal_strlit("/nzbs/");
    reveal_strlit("/nzbs/README.txt");
    reveal_strlit("/.ids/");
    reveal_strlit("/.ids/README.txt");
    assert("/content/"@ + "README.txt"@ =~= "/content/README.txt"@);
    assert("/nzbs/"@ + "README.txt"@ =~= "/nzbs/README.txt"@);
    assert("/.ids/"@ + "README.txt"@ =~= "/.ids/README.txt"@);
    lemma_step(t, w, 5);
    lemma_step(t, w, 6);
    lemma_step(t, w, 7);
    lemma_step(t, w, 8);
    lemma_step(t, w, 9);
    lemma_step(t, w, 10);
    assert(w.take(11) =~= w);
    assert forall|k: int| 0 <= k < w.len() implies (#[trigger] w[k]).required by {
        assert(k == 0 || k == 1 || k == 2 || k == 3 || k == 4 || k == 5 || k == 6 || k == 7 || k == 8
            || k == 9 || k == 10);
    }
}

/// The text of a README file is what is stored for it, where the three have identifiers of
/// their own.
pub proof fn law_readmes_hold_their_texts(
    t: Tables,
    now: Timestamp,
    r: Result<Vec<PlannedWrite>, DavServerError>,
)
    requires
        t.items.len() == 0,
        id_of("/content/README.txt"@) != id_of("/nzbs/README.txt"@),
        id_of("/content/README.txt"@) != id_of("/.ids/README.txt"@),
        id_of("/nzbs/README.txt"@) != id_of("/.ids/README.txt"@),
        call_ensures(seed_root_items, (Ok(None), now), r),
    ensures
        ({
            let after = db::after_writes(t, r->Ok_0@);
            let s = after.items;
            &&& after.nzb_blobs[s[5].nzb_blob_id->0] == encode_utf8(CONTENT_README@)
            &&& after.nzb_blobs[s[6].nzb_blob_id->0] == encode_utf8(NZBS_README@)
            &&& after.nzb_blobs[s[7].nzb_blob_id->0] == encode_utf8(IDS_README@)
        }),
{
    let w = r->Ok_0@;
    lemma_seeded(t, w, now);
    assert(db::after_writes(t, w).items =~= seeded_items(w));
    lemma_step(t, w, 5);
    lemma_step(t, w, 6);
    lemma_step(t, w, 7);
    lemma_step(t, w, 8);
    lemma_step(t, w, 9);
    lemma_step(t, w, 10);
    assert(w.take(11) =~= w);
}

/// A filesystem that has a root is left as it is, and an error is handed on.
pub proof fn law_seeding_leaves_what_is_there(
    root: DavItem,
    e: DavServerError,
    now: Timestamp,
    a: Result<Vec<PlannedWrite>, DavServerError>,
    b: Result<Vec<PlannedWrite>, DavServerError>,
)
    requires
        call_ensures(seed_root_items, (Ok(Some(root)), now), a),
        call_ensures(seed_root_items, (Err(e), now), b),
    ensures
        a is Ok && a->Ok_0@.len() == 0,
        b is Err && b->Err_0 == e,
{
}

} // verus!
