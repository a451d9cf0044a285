//! What holds of the store's operations: what they find, what they show of it, and what they
//! leave in the tables. Each law speaks of the functions themselves: `call_ensures(f, args,
//! r)` says that `f` returns `r` for these arguments.

use vstd::prelude::*;

use crate::dav::laws;
use crate::dav::response_laws::text_in;
use crate::dav::store;
use crate::dav::store::{DatabaseStore, DavNode, UploadIds};
use crate::db;
use crate::db::{PlannedWrite, Tables};
use crate::error::DavServerError;
use crate::ids;
use crate::models::{DavItem, ItemSubType, ItemType, QueueItem, Timestamp};
use crate::nzb;
use crate::text;

verus! {

/// Whether all characters of a text are slashes.
pub open spec fn is_slashes(s: Seq<char>) -> bool {
    forall|i: int| 0 <= i < s.len() ==> #[trigger] s[i] == '/'
}

/// Whether a text is the name of a file or directory.
pub open spec fn is_name(s: Seq<char>) -> bool {
    s.len() > 0 && !s.contains('/')
}

/// A path made of a parent's path, a name and slashes is split into the first two.
proof fn lemma_split(path: Seq<char>, parent: Seq<char>, name: Seq<char>, slashes: Seq<char>)
    requires
        path == parent + name + slashes,
        parent.len() > 0,
        parent.last() == '/',
        is_name(name),
        is_slashes(slashes),
    ensures
        store::parent_and_name(path) == (parent, name),
{
    let k = (parent.len() + name.len()) as int;
    assert(path[k - 1] == name[name.len() - 1]);
    assert(name.contains(name[name.len() - 1]));
    assert forall|i: int| k <= i < path.len() implies path[i] == '/' by {
        assert(path[i] == slashes[i - k]);
    }
    text::lemma_trimmed_end_unique(path, '/', k);
    let trimmed = text::trimmed_end(path, '/');
    assert(trimmed =~= parent + name);
    let at = parent.len() - 1;
    assert forall|i: int| at < i < trimmed.len() implies trimmed[i] != '/' by {
        assert(trimmed[i] == name[i - parent.len()]);
        assert(name.contains(name[i - parent.len()]));
    }
    text::lemma_last_position_unique(trimmed, '/', at);
    assert(path.subrange(0, at + 1) =~= parent);
    assert(trimmed.subrange(at + 1, trimmed.len() as int) =~= name);
}

/// A node shows its item: a directory as a collection, a file as what its name says, and
/// under a tag from which the item's identifier can be read.
pub proof fn law_nodes_show_their_items(
    item: DavItem,
    guess: String,
    name: &str,
    kind: String,
    typed: DavNode,
    node: DavNode,
)
    requires
        name@ == item.name@,
        call_ensures(store::mime_from_name, (name,), kind),
        call_ensures(DavNode::with_type, (item, guess), typed),
        call_ensures(DavNode::from_item, (item,), node),
    ensures
        typed.item == item && node.item == item,
        node.is_collection <==> item.item_type == ItemType::Directory,
        typed.is_collection == node.is_collection,
        node.is_collection ==> node.content_type@ == "httpd/unix-directory"@ && typed.content_type@
            == "httpd/unix-directory"@,
        !node.is_collection ==> node.content_type@ == kind@ && typed.content_type@ == guess@,
        node.etag@ == typed.etag@,
        node.etag@.len() == 38,
        node.etag@[0] == '"' && node.etag@[37] == '"',
        ids::uuid_parsed(node.etag@.subrange(1, 37)) == Some(item.id),
{
    ids::law_uuid_text_parses_back(item.id);
    ids::lemma_uuid_text_chars(item.id);
    assert(node.etag@.subrange(1, 37) =~= ids::uuid_text(item.id));
}

/// A path is split into its name, what follows the last slash before the slashes at its end,
/// and what comes before the name.
pub proof fn law_paths_are_split(
    path: &str,
    parent: Seq<char>,
    name: Seq<char>,
    slashes: Seq<char>,
    r: (String, String),
)
    requires
        path@ == parent + name + slashes,
        parent.len() > 0,
        parent.last() == '/',
        is_name(name),
        is_slashes(slashes),
        call_ensures(store::split_path, (path,), r),
    ensures
        r.0@ == parent,
        r.1@ == name,
{
    lemma_split(path@, parent, name, slashes);
}

/// A path without a slash is a name below the root.
pub proof fn law_bare_names_lie_below_the_root(path: &str, r: (String, String))
    requires
        is_name(path@),
        call_ensures(store::split_path, (path,), r),
    ensures
        r.0@ == "/"@,
        r.1@ == path@,
{
    let s = path@;
    assert(s.contains(s[s.len() - 1]));
    assert forall|i: int| -1 < i < s.len() implies s[i] != '/' by {
        assert(s.contains(s[i]));
    }
    text::lemma_last_position_unique(s, '/', -1);
}

/// A path of slashes alone has the root as its parent, and no name.
proof fn lemma_split_slashes(path: Seq<char>)
    requires
        is_slashes(path),
    ensures
        store::parent_and_name(path).0 == "/"@,
        store::parent_and_name(path).1 == Seq::<char>::empty(),
{
    assert forall|i: int| 0 <= i < path.len() implies path[i] == '/' by {}
    text::lemma_trimmed_end_unique(path, '/', 0);
    assert(path.subrange(0, 0) =~= Seq::empty());
    text::lemma_last_position_unique(Seq::empty(), '/', -1);
}

/// A path of slashes alone has the root as its parent, and no name. What is made there is
/// filed under `_`.
pub proof fn law_roots_have_no_name(
    db_store: &DatabaseStore,
    path: &str,
    data: Vec<u8>,
    parent: DavItem,
    source: DavItem,
    made: UploadIds,
    job_name: String,
    id: u128,
    now: Timestamp,
    parts: (String, String),
    directory: Result<Vec<PlannedWrite>, DavServerError>,
    copy: Result<Vec<PlannedWrite>, DavServerError>,
    upload: Result<Vec<PlannedWrite>, DavServerError>,
)
    requires
        is_slashes(path@),
        parent.item_type == ItemType::Directory,
        call_ensures(store::split_path, (path,), parts),
        call_ensures(
            DatabaseStore::mkcol,
            (db_store, path, Ok(Some(parent)), Ok(None), id, now),
            directory,
        ),
        call_ensures(
            DatabaseStore::copy_item,
            (db_store, path, path, Ok(Some(source)), Ok(Some(parent)), Ok(None), id, now),
            copy,
        ),
        call_ensures(
            DatabaseStore::put_nzb,
            (db_store, path, data, Ok(Some(parent)), Ok(None), made, job_name, now),
            upload,
        ),
    ensures
        parts.0@ == "/"@,
        parts.1@.len() == 0,
        directory is Ok && copy is Ok && upload is Ok,
        directory->Ok_0@[0].write->InsertItem_0.id_prefix@ == seq!['_'],
        copy->Ok_0@[0].write->InsertItem_0.id_prefix@ == seq!['_'],
        upload->Ok_0@[1].write->InsertItem_0.id_prefix@ == seq!['_'],
{
    lemma_split_slashes(path@);
}

/// The path of a directory ends in one slash more, unless it ends in one.
pub proof fn law_directories_end_in_a_slash(path: &str, r: String)
    requires
        call_ensures(store::directory_path, (path,), r),
    ensures
        r@.len() > 0 && r@.last() == '/',
        path@.len() > 0 && path@.last() == '/' ==> r@ == path@,
        !(path@.len() > 0 && path@.last() == '/') ==> r@ == path@.push('/'),
{
    reveal_strlit("/");
    assert(path@ + "/"@ =~= path@.push('/'));
}

/// A path below `/nzbs/` is that of a queued file, and no other path is.
pub proof fn law_queued_files_lie_below_nzbs(path: &str, name: Seq<char>, r: Option<String>)
    requires
        call_ensures(store::virtual_name, (path,), r),
    ensures
        is_name(name) && path@ == "/nzbs/"@ + name ==> (r matches Some(n) && n@ == name),
        r matches Some(n) ==> is_name(n@) && path@ == "/nzbs/"@ + n@,
{
    let p = "/nzbs/"@;
    let k = p.len() as int;
    if is_name(name) && path@ == p + name {
        assert(path@.subrange(0, k) =~= p);
        assert(path@.subrange(k, path@.len() as int) =~= name);
    }
    if let Some(n) = r {
        assert(path@ =~= path@.subrange(0, k) + path@.subrange(k, path@.len() as int));
    }
}

/// A path below `/.ids/` names the item with the identifier that is its last part.
pub proof fn law_identifiers_lie_below_ids(path: &str, id: u128, r: Option<u128>)
    requires
        call_ensures(store::named_id, (path,), r),
    ensures
        path@ == "/.ids/"@ + ids::uuid_text(id) ==> r == Some(id),
        r matches Some(found) ==> exists|rest: Seq<char>| path@ == "/.ids/"@ + rest
            && #[trigger] ids::uuid_parsed(rest) == Some(found),
{
    let p = "/.ids/"@;
    let k = p.len() as int;
    let name = ids::uuid_text(id);
    if path@ == p + name {
        assert(path@.subrange(0, k) =~= p);
        assert(path@.subrange(k, path@.len() as int) =~= name);
        ids::law_uuid_text_parses_back(id);
        ids::lemma_uuid_text_chars(id);
        assert(path@.last() == name.last());
        assert(name.contains(name[name.len() - 1]));
    }
    if let Some(found) = r {
        let rest = path@.subrange(k, path@.len() as int);
        assert(path@ =~= path@.subrange(0, k) + rest);
        assert(path@ == p + rest && ids::uuid_parsed(rest) == Some(found));
    }
}

/// Whether an item is what the filesystem shows of a queued file: under its name below
/// `/nzbs/`, with the size and the bytes of its NZB file.
pub open spec fn mirrors(item: DavItem, q: QueueItem) -> bool {
    &&& item.id == q.id
    &&& item.id_prefix@ == "q"@
    &&& item.created_at == q.created_at
    &&& item.parent_id is None
    &&& item.name@ == q.file_name@
    &&& item.path@ == "/nzbs/"@ + q.file_name@
    &&& item.file_size == Some(q.nzb_file_size)
    &&& item.nzb_blob_id == Some(q.id)
    &&& item.item_type == ItemType::UsenetFile
    &&& item.sub_type == ItemSubType::NzbFile
    &&& item.file_blob_id is None
    &&& item.history_item_id is None
    &&& item.release_date is None
    &&& item.last_health_check is None
    &&& item.next_health_check is None
}

/// A queued file is shown as what it is.
pub proof fn law_queued_files_are_mirrored(q: &QueueItem, r: DavItem)
    requires
        call_ensures(store::queue_item_to_dav_item, (q,), r),
    ensures
        mirrors(r, *q),
{
}

/// Whether a node is the one that an item is shown as.
pub open spec fn is_node_of(node: DavNode, item: DavItem) -> bool {
    &&& node.item == item
    &&& node.is_collection == (item.item_type == ItemType::Directory)
    &&& node.is_collection ==> node.content_type@ == "httpd/unix-directory"@
    &&& !node.is_collection ==> node.content_type@ == store::mime_of_name(item.name@)
    &&& node.etag@.len() == 38
    &&& ids::uuid_parsed(node.etag@.subrange(1, 37)) == Some(item.id)
}

proof fn lemma_shown(node: DavNode, item: DavItem)
    requires
        node.shows(item),
    ensures
        is_node_of(node, item),
{
    ids::law_uuid_text_parses_back(item.id);
    ids::lemma_uuid_text_chars(item.id);
    assert(node.etag@.subrange(1, 37) =~= ids::uuid_text(item.id));
}

/// A path leads to the item that is stored under it, or else under it and a slash.
pub proof fn law_paths_lead_to_stored_items(
    db_store: &DatabaseStore,
    path: &str,
    item: DavItem,
    slashed: Result<Option<DavItem>, DavServerError>,
    by_id: Result<Option<DavItem>, DavServerError>,
    queue: Result<Vec<QueueItem>, DavServerError>,
    a: Result<Option<DavNode>, DavServerError>,
    b: Result<Option<DavNode>, DavServerError>,
)
    requires
        call_ensures(
            DatabaseStore::get_node,
            (db_store, path, Ok(Some(item)), slashed, by_id, queue),
            a,
        ),
        call_ensures(
            DatabaseStore::get_node,
            (db_store, path, Ok(None), Ok(Some(item)), by_id, queue),
            b,
        ),
    ensures
        a is Ok && a->Ok_0 is Some && is_node_of(a->Ok_0->0, item),
        !(path@.len() > 0 && path@.last() == '/') ==> b is Ok && b->Ok_0 is Some && is_node_of(
            b->Ok_0->0,
            item,
        ),
{
    lemma_shown(a->Ok_0->0, item);
    if !(path@.len() > 0 && path@.last() == '/') {
        lemma_shown(b->Ok_0->0, item);
    }
}

/// A path below `/.ids/` under which nothing is stored leads to the item that it names.
pub proof fn law_identifiers_lead_to_items(
    db_store: &DatabaseStore,
    path: &str,
    id: u128,
    found: Option<DavItem>,
    queue: Result<Vec<QueueItem>, DavServerError>,
    r: Result<Option<DavNode>, DavServerError>,
)
    requires
        path@ == "/.ids/"@ + ids::uuid_text(id),
        call_ensures(
            DatabaseStore::get_node,
            (db_store, path, Ok(None), Ok(None), Ok(found), queue),
            r,
        ),
    ensures
        r is Ok,
        r->Ok_0 is Some <==> found is Some,
        found is Some ==> is_node_of(r->Ok_0->0, found->0),
{
    let p = "/.ids/"@;
    let name = ids::uuid_text(id);
    assert(path@.subrange(0, p.len() as int) =~= p);
    assert(path@.subrange(p.len() as int, path@.len() as int) =~= name);
    ids::law_uuid_text_parses_back(id);
    ids::lemma_uuid_text_chars(id);
    assert(path@.last() == name.last());
    assert(name.contains(name[name.len() - 1]));
    if let Some(item) = found {
        lemma_shown(r->Ok_0->0, item);
    }
}

/// A name below `/nzbs/` is none below `/.ids/`.
proof fn lemma_below_nzbs(path: Seq<char>, name: Seq<char>)
    requires
        is_name(name),
        path == "/nzbs/"@ + name,
    ensures
        store::id_named(path) is None,
        store::queued_name(path) == Some(name),
        !store::has_slash_end(path),
{
    reveal_strlit("/nzbs/");
    reveal_strlit("/.ids/");
    assert(path[1] == 'n');
    if text::starts_with(path, "/.ids/"@) {
        assert(path.subrange(0, 6)[1] == '.');
    }
    assert(path.subrange(0, 6) =~= "/nzbs/"@);
    assert(path.subrange(6, path.len() as int) =~= name);
    assert(path.last() == name[name.len() - 1]);
    assert(name.contains(name[name.len() - 1]));
}

/// The first queue item of a name is found before all others of that name.
proof fn lemma_first_of_name(queue: Seq<QueueItem>, name: Seq<char>, k: int)
    requires
        0 <= k < queue.len(),
        queue[k].file_name@ == name,
        forall|j: int| 0 <= j < k ==> (#[trigger] queue[j]).file_name@ != name,
    ensures
        store::first_queued(queue, name) == Some(queue[k]),
    decreases k,
{
    if k > 0 {
        let rest = queue.drop_first();
        assert(queue[0].file_name@ != name);
        assert forall|j: int| 0 <= j < k - 1 implies (#[trigger] rest[j]).file_name@ != name by {
            assert(rest[j] == queue[j + 1]);
        }
        lemma_first_of_name(rest, name, k - 1);
    }
}

/// A name below `/nzbs/` under which nothing is stored leads to the first queued file of that
/// name, and to nothing where none has it.
pub proof fn law_names_lead_to_queued_files(
    db_store: &DatabaseStore,
    path: &str,
    name: Seq<char>,
    by_id: Result<Option<DavItem>, DavServerError>,
    queue: Vec<QueueItem>,
    k: int,
    r: Result<Option<DavNode>, DavServerError>,
)
    requires
        is_name(name),
        path@ == "/nzbs/"@ + name,
        0 <= k <= queue@.len(),
        forall|j: int| 0 <= j < k ==> (#[trigger] queue@[j]).file_name@ != name,
        k < queue@.len() ==> queue@[k].file_name@ == name,
        call_ensures(
            DatabaseStore::get_node,
            (db_store, path, Ok(None), Ok(None), by_id, Ok(queue)),
            r,
        ),
    ensures
        r is Ok,
        r->Ok_0 is Some <==> k < queue@.len(),
        k < queue@.len() ==> mirrors(r->Ok_0->0.item, queue@[k]) && is_node_of(
            r->Ok_0->0,
            r->Ok_0->0.item,
        ),
{
    lemma_below_nzbs(path@, name);
    if k < queue@.len() {
        lemma_first_of_name(queue@, name, k);
        lemma_shown(r->Ok_0->0, r->Ok_0->0.item);
    } else {
        laws::lemma_first_queued(queue@, name);
        if let Some(q) = store::first_queued(queue@, name) {
            let j = choose|j: int| 0 <= j < queue@.len() && queue@[j] == q;
            assert(queue@[j].file_name@ != name);
        }
    }
}

/// A path under which nothing is stored, and that lies neither below `/.ids/` nor below
/// `/nzbs/`, leads to nothing.
pub proof fn law_other_paths_lead_to_nothing(
    db_store: &DatabaseStore,
    path: &str,
    by_id: Result<Option<DavItem>, DavServerError>,
    queue: Result<Vec<QueueItem>, DavServerError>,
    r: Result<Option<DavNode>, DavServerError>,
)
    requires
        forall|rest: Seq<char>| #[trigger] ("/.ids/"@ + rest) != path@,
        forall|rest: Seq<char>| #[trigger] ("/nzbs/"@ + rest) != path@,
        call_ensures(
            DatabaseStore::get_node,
            (db_store, path, Ok(None), Ok(None), by_id, queue),
            r,
        ),
    ensures
        r is Ok && r->Ok_0 is None,
{
    let s = path@;
    let a = "/.ids/"@;
    let b = "/nzbs/"@;
    if text::starts_with(s, a) {
        assert(a + s.subrange(a.len() as int, s.len() as int) =~= s);
    }
    if text::starts_with(s, b) {
        assert(b + s.subrange(b.len() as int, s.len() as int) =~= s);
    }
}

/// A query that fails is reported, where its result is needed.
pub proof fn law_failed_lookups_are_reported(
    db_store: &DatabaseStore,
    path: &str,
    id: u128,
    queued: &str,
    name: Seq<char>,
    e: DavServerError,
    other: Result<Option<DavItem>, DavServerError>,
    queue: Result<Vec<QueueItem>, DavServerError>,
    a: Result<Option<DavNode>, DavServerError>,
    b: Result<Option<DavNode>, DavServerError>,
    c: Result<Option<DavNode>, DavServerError>,
    d: Result<Option<DavNode>, DavServerError>,
)
    requires
        path@ == "/.ids/"@ + ids::uuid_text(id),
        is_name(name),
        queued@ == "/nzbs/"@ + name,
        call_ensures(DatabaseStore::get_node, (db_store, path, Err(e), other, other, queue), a),
        call_ensures(
            DatabaseStore::get_node,
            (db_store, queued, Ok(None), Err(e), other, queue),
            b,
        ),
        call_ensures(
            DatabaseStore::get_node,
            (db_store, path, Ok(None), Ok(None), Err(e), queue),
            c,
        ),
        call_ensures(
            DatabaseStore::get_node,
            (db_store, queued, Ok(None), Ok(None), other, Err(e)),
            d,
        ),
    ensures
        a is Err && a->Err_0@ == e@,
        b is Err && b->Err_0@ == e@,
        c is Err && c->Err_0@ == e@,
        d is Err && d->Err_0@ == e@,
{
    let p = "/.ids/"@;
    let text = ids::uuid_text(id);
    assert(path@.subrange(0, p.len() as int) =~= p);
    assert(path@.subrange(p.len() as int, path@.len() as int) =~= text);
    ids::law_uuid_text_parses_back(id);
    ids::lemma_uuid_text_chars(id);
    assert(path@.last() == text.last());
    assert(text.contains(text[text.len() - 1]));
    lemma_below_nzbs(queued@, name);
}

/// The queue is listed below `/nzbs`, however many slashes follow, and nowhere else.
pub proof fn law_nzbs_lists_the_queue(
    db_store: &DatabaseStore,
    path: &str,
    slashes: Seq<char>,
    r: bool,
)
    requires
        call_ensures(DatabaseStore::lists_queue, (db_store, path), r),
    ensures
        is_slashes(slashes) && path@ == "/nzbs"@ + slashes ==> r,
        r ==> exists|tail: Seq<char>| is_slashes(tail) && path@ == #[trigger] ("/nzbs"@ + tail),
{
    reveal_strlit("/nzbs");
    reveal_strlit("/");
    let whole = store::with_slash(path@);
    if is_slashes(slashes) && path@ == "/nzbs"@ + slashes {
        assert forall|i: int| 5 <= i < whole.len() implies whole[i] == '/' by {
            if i < path@.len() {
                assert(path@[i] == slashes[i - 5]);
            }
        }
        assert(whole[4] == 's');
        text::lemma_trimmed_end_unique(whole, '/', 5);
        assert(whole.subrange(0, 5) =~= "/nzbs"@);
    }
    if r {
        text::lemma_trimmed_end(whole, '/');
        assert(whole.subrange(0, 5) =~= "/nzbs"@);
        assert(whole[4] == whole.subrange(0, 5)[4]);
        assert(path@.len() >= 5);
        let tail = path@.subrange(5, path@.len() as int);
        assert forall|i: int| 0 <= i < tail.len() implies #[trigger] tail[i] == '/' by {
            assert(tail[i] == whole[i + 5]);
        }
        assert(path@ =~= "/nzbs"@ + tail) by {
            assert forall|i: int| 0 <= i < 5 implies path@[i] == "/nzbs"@[i] by {
                assert(path@[i] == whole[i]);
                assert(whole[i] == whole.subrange(0, 5)[i]);
            }
        }
    }
}

/// A listing shows the children in their order, and below `/nzbs` the queued files after
/// them.
pub proof fn law_listings_hold_children_and_queue(
    db_store: &DatabaseStore,
    path: &str,
    items: Vec<DavItem>,
    queue: Vec<QueueItem>,
    lists: bool,
    r: Result<Vec<DavNode>, DavServerError>,
)
    requires
        call_ensures(DatabaseStore::lists_queue, (db_store, path), lists),
        call_ensures(DatabaseStore::list_children, (db_store, path, Ok(items), Ok(queue)), r),
    ensures
        r is Ok,
        r->Ok_0@.len() == items@.len() + (if lists {
            queue@.len()
        } else {
            0
        }),
        forall|i: int| 0 <= i < items@.len() ==> is_node_of(#[trigger] r->Ok_0@[i], items@[i]),
        lists ==> forall|i: int|
            0 <= i < queue@.len() ==> mirrors(
                (#[trigger] r->Ok_0@[items@.len() + i]).item,
                queue@[i],
            ),
{
    let nodes = r->Ok_0@;
    assert forall|i: int| 0 <= i < items@.len() implies is_node_of(
        #[trigger] nodes[i],
        items@[i],
    ) by {
        assert(nodes[i].shows(items@[i]));
        lemma_shown(nodes[i], items@[i]);
    }
    if lists {
        assert forall|i: int| 0 <= i < queue@.len() implies mirrors(
            (#[trigger] nodes[items@.len() + i]).item,
            queue@[i],
        ) by {
            assert(store::shows_queued(nodes[items@.len() + i], queue@[i]));
        }
    }
}

/// A listing that fails is reported.
pub proof fn law_failed_listings_are_reported(
    db_store: &DatabaseStore,
    path: &str,
    items: Vec<DavItem>,
    e: DavServerError,
    queue: Result<Vec<QueueItem>, DavServerError>,
    a: Result<Vec<DavNode>, DavServerError>,
    b: Result<Vec<DavNode>, DavServerError>,
    lists: bool,
)
    requires
        call_ensures(DatabaseStore::lists_queue, (db_store, path), lists),
        call_ensures(DatabaseStore::list_children, (db_store, path, Err(e), queue), a),
        call_ensures(DatabaseStore::list_children, (db_store, path, Ok(items), Err(e)), b),
    ensures
        a is Err && a->Err_0@ == e@,
        lists ==> b is Err && b->Err_0@ == e@,
        !lists ==> b is Ok,
{
}

/// Whether an item was made at the path of a parent and a name.
pub open spec fn is_made(
    item: DavItem,
    path: Seq<char>,
    name: Seq<char>,
    parent: u128,
    id: u128,
    now: Timestamp,
) -> bool {
    &&& item.id == id
    &&& item.parent_id == Some(parent)
    &&& item.path@ == path
    &&& item.name@ == name
    &&& item.id_prefix@ == seq![name[0]]
    &&& item.created_at == now
}

/// Whether only the writes that drop a blob may fail.
pub open spec fn only_blobs_may_fail(w: Seq<PlannedWrite>) -> bool {
    forall|k: int|
        0 <= k < w.len() ==> ((#[trigger] w[k]).required <==> !(w[k].write is DeleteNzbBlob))
}

/// An uploaded NZB file becomes the item at its path, in place of what was there with all
/// that lay below: with its name and its size, below its parent, and with its bytes as its
/// NZB file.
pub proof fn law_uploads_become_items(
    t: Tables,
    db_store: &DatabaseStore,
    path: &str,
    parent_path: Seq<char>,
    name: Seq<char>,
    slashes: Seq<char>,
    data: Vec<u8>,
    parent: DavItem,
    existing: Option<DavItem>,
    made: UploadIds,
    job_name: String,
    now: Timestamp,
    r: Result<Vec<PlannedWrite>, DavServerError>,
)
    requires
        path@ == parent_path + name + slashes,
        parent_path.len() > 0,
        parent_path.last() == '/',
        is_name(name),
        is_slashes(slashes),
        call_ensures(
            DatabaseStore::put_nzb,
            (db_store, path, data, Ok(Some(parent)), Ok(existing), made, job_name, now),
            r,
        ),
    ensures
        r is Ok,
        ({
            let after = db::after_writes(t, r->Ok_0@);
            let item = after.items.last();
            &&& after.items.drop_last() == (match existing {
                Some(x) => db::without_subtree(t.items, x.id),
                None => t.items,
            })
            &&& is_made(item, path@, name, parent.id, made.item, now)
            &&& data@.len() <= i64::MAX ==> (item.file_size matches Some(n) && n == data@.len())
            &&& item.item_type == ItemType::UsenetFile
            &&& item.sub_type == ItemSubType::NzbFile
            &&& item.nzb_blob_id == Some(made.blob)
            &&& item.file_blob_id is None
            &&& item.history_item_id is None
            &&& item.release_date is None
            &&& item.last_health_check is None
            &&& item.next_health_check is None
            &&& after.nzb_blobs.contains_key(made.blob)
            &&& after.nzb_blobs[made.blob] == data@
            &&& after.history == t.history
            &&& only_blobs_may_fail(r->Ok_0@)
        }),
{
    lemma_split(path@, parent_path, name, slashes);
    let w = r->Ok_0@;
    let b = store::blob_clearing(existing);
    let c = store::clearing(existing);
    let n = (b + c).len() as int;
    let item = w[n + 1].write->InsertItem_0;
    laws::lemma_stored(t, w, item, path@, data@, existing, made, job_name@, now);
    let after = db::after_writes(t, w);
    assert(after.items == laws::cleared(t.items, existing).push(item));
    assert(after.items.drop_last() =~= laws::cleared(t.items, existing));
    assert(data.len() == data@.len());
    assert forall|k: int| 0 <= k < w.len() implies ((#[trigger] w[k]).required <==> !(
    w[k].write is DeleteNzbBlob)) by {
        if k < n {
            assert(w.take(n)[k] == w[k]);
            assert((b + c)[k] == w[k]);
        } else if k >= n + 2 {
            assert(w.skip(n + 2)[k - n - 2] == w[k]);
        }
    }
}

/// An NZB file that is uploaded directly below `/nzbs/`, and that can be parsed, is added to
/// the queue under its name, with no category and no priority. No other upload changes the
/// queue.
pub proof fn law_uploads_are_queued(
    t: Tables,
    db_store: &DatabaseStore,
    path: &str,
    name: Seq<char>,
    data: Vec<u8>,
    parent: DavItem,
    existing: Option<DavItem>,
    made: UploadIds,
    job_name: String,
    now: Timestamp,
    queued: Option<String>,
    r: Result<Vec<PlannedWrite>, DavServerError>,
)
    requires
        call_ensures(store::virtual_name, (path,), queued),
        call_ensures(
            DatabaseStore::put_nzb,
            (db_store, path, data, Ok(Some(parent)), Ok(existing), made, job_name, now),
            r,
        ),
    ensures
        r is Ok,
        ({
            let after = db::after_writes(t, r->Ok_0@);
            let q = after.queue.last();
            let files = nzb::nzb_read(data@)->Ok_0.files;
            &&& queued is None || nzb::nzb_read(data@) is Err ==> after.queue == t.queue
            &&& queued is Some && nzb::nzb_read(data@) is Ok ==> {
                &&& after.queue.len() == t.queue.len() + 1
                &&& after.queue.drop_last() == t.queue
                &&& q.id == made.queue
                &&& q.file_name@ == queued->0@
                &&& q.job_name@ == job_name@
                &&& q.created_at == now
                &&& q.priority == 0
                &&& q.category@.len() == 0
                &&& q.post_processing == -1
                &&& q.pause_until is None
                &&& data@.len() <= i64::MAX ==> q.nzb_file_size == data@.len()
                &&& nzb::total_bytes(files) <= i64::MAX ==> q.total_segment_bytes
                    == nzb::total_bytes(files)
                &&& after.nzb_blobs.contains_key(made.queue)
                &&& after.nzb_blobs[made.queue] == data@
            }
        }),
{
    let w = r->Ok_0@;
    let n = (store::blob_clearing(existing) + store::clearing(existing)).len() as int;
    let item = w[n + 1].write->InsertItem_0;
    laws::lemma_stored(t, w, item, path@, data@, existing, made, job_name@, now);
    let after = db::after_writes(t, w);
    assert(data.len() == data@.len());
    if queued is Some && nzb::nzb_read(data@) is Ok {
        store::lemma_queued_name(path@);
        assert(w.skip(n + 2)[0] == w[n + 2]);
        assert(w.skip(n + 2)[1] == w[n + 3]);
        assert(after.queue.drop_last() =~= t.queue);
    }
}

/// What an upload replaces loses its NZB file, unless that is one that the upload stores.
pub proof fn law_replaced_nzb_files_are_dropped(
    t: Tables,
    db_store: &DatabaseStore,
    path: &str,
    data: Vec<u8>,
    parent: DavItem,
    replaced: DavItem,
    made: UploadIds,
    job_name: String,
    now: Timestamp,
    r: Result<Vec<PlannedWrite>, DavServerError>,
    blob: u128,
)
    requires
        blob != made.blob,
        blob != made.queue,
        call_ensures(
            DatabaseStore::put_nzb,
            (db_store, path, data, Ok(Some(parent)), Ok(Some(replaced)), made, job_name, now),
            r,
        ),
    ensures
        r is Ok,
        db::after_writes(t, r->Ok_0@).nzb_blobs.contains_key(blob) <==> t.nzb_blobs.contains_key(
            blob,
        ) && replaced.nzb_blob_id != Some(blob),
{
    let w = r->Ok_0@;
    let existing = Some(replaced);
    let b = store::blob_clearing(existing);
    let c = store::clearing(existing);
    let n = (b + c).len() as int;
    let item = w[n + 1].write->InsertItem_0;
    laws::lemma_stored(t, w, item, path@, data@, existing, made, job_name@, now);
    let stored = (b + c).push(w[n]).push(w[n + 1]);
    assert(w.take(n + 2) =~= stored) by {
        assert(w.take(n + 2).take(n) =~= w.take(n));
    }
    db::lemma_after_writes_last(t, (b + c).push(w[n]), w[n + 1]);
    db::lemma_after_writes_last(t, b + c, w[n]);
    if b.len() > 0 {
        assert(b + c =~= Seq::<PlannedWrite>::empty().push(b[0]).push(c[0]));
        db::lemma_after_writes_last(t, Seq::empty().push(b[0]), c[0]);
        db::lemma_after_writes_last(t, Seq::empty(), b[0]);
    } else {
        assert(b + c =~= Seq::<PlannedWrite>::empty().push(c[0]));
        db::lemma_after_writes_last(t, Seq::empty(), c[0]);
    }
    if store::queued_upload(path@, data@) is Some {
        assert(w.skip(n + 2)[0] == w[n + 2]);
        assert(w.skip(n + 2)[1] == w[n + 3]);
    }
}

/// Deleting a stored item removes it with all that lies below, and nothing else.
pub proof fn law_deletions_remove_the_item(
    t: Tables,
    db_store: &DatabaseStore,
    path: &str,
    item: DavItem,
    queue: Result<Vec<QueueItem>, DavServerError>,
    r: Result<Vec<PlannedWrite>, DavServerError>,
)
    requires
        call_ensures(DatabaseStore::delete, (db_store, path, Ok(Some(item)), queue), r),
    ensures
        r is Ok,
        db::after_writes(t, r->Ok_0@) == (Tables {
            items: db::without_subtree(t.items, item.id),
            ..t
        }),
        only_blobs_may_fail(r->Ok_0@),
{
    let w = r->Ok_0@;
    assert(w =~= Seq::<PlannedWrite>::empty().push(w[0]));
    db::lemma_after_writes_last(t, Seq::empty(), w[0]);
}

/// Deleting a queued file removes its queue item and its NZB file, and nothing else. What is
/// neither stored nor queued cannot be deleted.
pub proof fn law_deletions_remove_the_queued_file(
    t: Tables,
    db_store: &DatabaseStore,
    path: &str,
    name: Seq<char>,
    queue: Vec<QueueItem>,
    k: int,
    r: Result<Vec<PlannedWrite>, DavServerError>,
)
    requires
        is_name(name),
        path@ == "/nzbs/"@ + name,
        0 <= k <= queue@.len(),
        forall|j: int| 0 <= j < k ==> (#[trigger] queue@[j]).file_name@ != name,
        k < queue@.len() ==> queue@[k].file_name@ == name,
        call_ensures(DatabaseStore::delete, (db_store, path, Ok(None), Ok(queue)), r),
    ensures
        r is Ok <==> k < queue@.len(),
        r is Err ==> r->Err_0 is NotFound && text_in(r->Err_0) == path@,
        r is Ok ==> {
            let after = db::after_writes(t, r->Ok_0@);
            let id = queue@[k].id;
            &&& forall|q: QueueItem| #[trigger]
                after.queue.contains(q) <==> t.queue.contains(q) && q.id != id
            &&& after.nzb_blobs == t.nzb_blobs.remove(id)
            &&& after.items == t.items
            &&& after.history == t.history
            &&& only_blobs_may_fail(r->Ok_0@)
        },
{
    lemma_below_nzbs(path@, name);
    if k < queue@.len() {
        lemma_first_of_name(queue@, name, k);
        let w = r->Ok_0@;
        let id = queue@[k].id;
        assert(w =~= Seq::<PlannedWrite>::empty().push(w[0]).push(w[1]));
        db::lemma_after_writes_last(t, Seq::empty().push(w[0]), w[1]);
        db::lemma_after_writes_last(t, Seq::empty(), w[0]);
        let keep = |q: QueueItem| q.id != id;
        db::lemma_filter_contains(t.queue, keep);
        assert(db::after_writes(t, w).queue == t.queue.filter(keep));
    } else {
        laws::lemma_first_queued(queue@, name);
        if let Some(q) = store::first_queued(queue@, name) {
            let j = choose|j: int| 0 <= j < queue@.len() && queue@[j] == q;
            assert(queue@[j].file_name@ != name);
        }
    }
}

/// What is nowhere cannot be deleted, and a query that fails is reported.
pub proof fn law_hopeless_deletions_are_refused(
    db_store: &DatabaseStore,
    path: &str,
    queued: Option<String>,
    e: DavServerError,
    queue: Result<Vec<QueueItem>, DavServerError>,
    a: Result<Vec<PlannedWrite>, DavServerError>,
    b: Result<Vec<PlannedWrite>, DavServerError>,
    c: Result<Vec<PlannedWrite>, DavServerError>,
)
    requires
        call_ensures(store::virtual_name, (path,), queued),
        call_ensures(DatabaseStore::delete, (db_store, path, Err(e), queue), a),
        call_ensures(DatabaseStore::delete, (db_store, path, Ok(None), Err(e)), b),
        call_ensures(DatabaseStore::delete, (db_store, path, Ok(None), queue), c),
    ensures
        a is Err && a->Err_0@ == e@,
        queued is Some ==> b is Err && b->Err_0@ == e@,
        queued is None ==> c is Err && c->Err_0 is NotFound && text_in(c->Err_0) == path@,
{
}

/// A directory that is made is an empty one at its path, below its parent; nothing else
/// changes.
pub proof fn law_directories_are_made(
    t: Tables,
    db_store: &DatabaseStore,
    path: &str,
    parent_path: Seq<char>,
    name: Seq<char>,
    slashes: Seq<char>,
    parent: DavItem,
    id: u128,
    now: Timestamp,
    r: Result<Vec<PlannedWrite>, DavServerError>,
)
    requires
        path@ == parent_path + name + slashes,
        parent_path.len() > 0,
        parent_path.last() == '/',
        is_name(name),
        is_slashes(slashes),
        parent.item_type == ItemType::Directory,
        call_ensures(
            DatabaseStore::mkcol,
            (db_store, path, Ok(Some(parent)), Ok(None), id, now),
            r,
        ),
    ensures
        r is Ok,
        only_blobs_may_fail(r->Ok_0@),
        ({
            let after = db::after_writes(t, r->Ok_0@);
            let item = after.items.last();
            &&& after.items.len() == t.items.len() + 1
            &&& after.items.drop_last() == t.items
            &&& after == (Tables { items: after.items, ..t })
            &&& is_made(item, path@, name, parent.id, id, now)
            &&& item.item_type == ItemType::Directory
            &&& item.sub_type == ItemSubType::Directory
            &&& item.file_size is None
            &&& item.nzb_blob_id is None
            &&& item.file_blob_id is None
            &&& item.history_item_id is None
            &&& item.release_date is None
            &&& item.last_health_check is None
            &&& item.next_health_check is None
        }),
{
    lemma_split(path@, parent_path, name, slashes);
    let w = r->Ok_0@;
    assert(w =~= Seq::<PlannedWrite>::empty().push(w[0]));
    db::lemma_after_writes_last(t, Seq::empty(), w[0]);
    assert(db::after_writes(t, w).items.drop_last() =~= t.items);
}

/// A directory is refused where its parent is none, or where something is already.
pub proof fn law_misplaced_directories_are_refused(
    db_store: &DatabaseStore,
    path: &str,
    parts: (String, String),
    parent: DavItem,
    there: DavItem,
    e: DavServerError,
    existing: Result<Option<DavItem>, DavServerError>,
    id: u128,
    now: Timestamp,
    a: Result<Vec<PlannedWrite>, DavServerError>,
    b: Result<Vec<PlannedWrite>, DavServerError>,
    c: Result<Vec<PlannedWrite>, DavServerError>,
    d: Result<Vec<PlannedWrite>, DavServerError>,
    f: Result<Vec<PlannedWrite>, DavServerError>,
)
    requires
        call_ensures(store::split_path, (path,), parts),
        call_ensures(DatabaseStore::mkcol, (db_store, path, Ok(None), existing, id, now), a),
        call_ensures(
            DatabaseStore::mkcol,
            (db_store, path, Ok(Some(parent)), Ok(Some(there)), id, now),
            b,
        ),
        call_ensures(
            DatabaseStore::mkcol,
            (db_store, path, Ok(Some(parent)), existing, id, now),
            c,
        ),
        call_ensures(DatabaseStore::mkcol, (db_store, path, Err(e), existing, id, now), d),
        call_ensures(DatabaseStore::mkcol, (db_store, path, Ok(Some(parent)), Err(e), id, now), f),
    ensures
        a is Err && a->Err_0 is Conflict && text_in(a->Err_0) == "parent not found: "@ + parts.0@,
        parent.item_type == ItemType::Directory ==> b is Err && b->Err_0 is MethodNotAllowed
            && text_in(b->Err_0) == "collection already exists"@,
        parent.item_type != ItemType::Directory ==> c is Err && c->Err_0 is Conflict && text_in(
            c->Err_0,
        ) == "parent is not a collection"@,
        d is Err && d->Err_0@ == e@,
        parent.item_type == ItemType::Directory ==> f is Err && f->Err_0@ == e@,
{
}

/// An item that is moved keeps what it is, and gets the name and the parent of its new path,
/// in place of what was there. An item that is moved to where it is replaces nothing.
pub proof fn law_moves_rename_the_item(
    t: Tables,
    db_store: &DatabaseStore,
    from: &str,
    to: &str,
    parent_path: Seq<char>,
    name: Seq<char>,
    slashes: Seq<char>,
    source: DavItem,
    parent: DavItem,
    existing: Option<DavItem>,
    r: Result<Vec<PlannedWrite>, DavServerError>,
)
    requires
        to@ == parent_path + name + slashes,
        parent_path.len() > 0,
        parent_path.last() == '/',
        is_name(name),
        is_slashes(slashes),
        call_ensures(
            DatabaseStore::move_item,
            (db_store, from, to, Ok(Some(source)), Ok(Some(parent)), Ok(existing)),
            r,
        ),
    ensures
        r is Ok,
        only_blobs_may_fail(r->Ok_0@),
        ({
            let after = db::after_writes(t, r->Ok_0@);
            let left = match existing {
                Some(x) => if x.id == source.id {
                    t.items
                } else {
                    db::without_subtree(t.items, x.id)
                },
                None => t.items,
            };
            &&& after == (Tables { items: after.items, ..t })
            &&& after.items.len() == left.len()
            &&& forall|i: int|
                0 <= i < left.len() ==> {
                    let item = #[trigger] after.items[i];
                    &&& left[i].id != source.id ==> item == left[i]
                    &&& left[i].id == source.id ==> {
                        &&& item.path@ == to@
                        &&& item.name@ == name
                        &&& item.parent_id == Some(parent.id)
                        &&& item == (DavItem {
                            name: item.name,
                            path: item.path,
                            parent_id: item.parent_id,
                            ..left[i]
                        })
                    }
                }
        }),
{
    lemma_split(to@, parent_path, name, slashes);
    let w = r->Ok_0@;
    let gone = store::other_than(existing, source);
    let c = store::clearing(gone);
    assert(w =~= c.push(w.last()));
    db::lemma_after_writes_last(t, c, w.last());
    laws::lemma_after_clearing(t, gone);
}

/// A copy is an item of its own at its path, with the name and the parent of that and
/// otherwise as its source, in place of what was there.
pub proof fn law_copies_are_like_their_source(
    t: Tables,
    db_store: &DatabaseStore,
    from: &str,
    to: &str,
    parent_path: Seq<char>,
    name: Seq<char>,
    slashes: Seq<char>,
    source: DavItem,
    parent: DavItem,
    existing: Option<DavItem>,
    id: u128,
    now: Timestamp,
    r: Result<Vec<PlannedWrite>, DavServerError>,
)
    requires
        to@ == parent_path + name + slashes,
        parent_path.len() > 0,
        parent_path.last() == '/',
        is_name(name),
        is_slashes(slashes),
        call_ensures(
            DatabaseStore::copy_item,
            (db_store, from, to, Ok(Some(source)), Ok(Some(parent)), Ok(existing), id, now),
            r,
        ),
    ensures
        r is Ok,
        only_blobs_may_fail(r->Ok_0@),
        ({
            let after = db::after_writes(t, r->Ok_0@);
            let item = after.items.last();
            &&& after == (Tables { items: after.items, ..t })
            &&& after.items.len() > 0
            &&& after.items.drop_last() == (match existing {
                Some(x) => db::without_subtree(t.items, x.id),
                None => t.items,
            })
            &&& is_made(item, to@, name, parent.id, id, now)
            &&& item.file_size == source.file_size
            &&& item.item_type == source.item_type
            &&& item.sub_type == source.sub_type
            &&& item.file_blob_id == source.file_blob_id
            &&& item.nzb_blob_id == source.nzb_blob_id
            &&& item.history_item_id == source.history_item_id
            &&& item.release_date == source.release_date
            &&& item.last_health_check == source.last_health_check
            &&& item.next_health_check == source.next_health_check
        }),
{
    lemma_split(to@, parent_path, name, slashes);
    let w = r->Ok_0@;
    let c = store::clearing(existing);
    assert(w =~= c.push(w.last()));
    db::lemma_after_writes_last(t, c, w.last());
    laws::lemma_after_clearing(t, existing);
    let left = laws::cleared(t.items, existing);
    assert(db::after_writes(t, w).items.drop_last() =~= left);
}

/// A move and a copy of what is not there, or to where no parent is, are refused, and a query
/// that fails is reported.
pub proof fn law_hopeless_transfers_are_refused(
    db_store: &DatabaseStore,
    from: &str,
    to: &str,
    parts: (String, String),
    source: DavItem,
    parent: DavItem,
    e: DavServerError,
    other: Result<Option<DavItem>, DavServerError>,
    id: u128,
    now: Timestamp,
    moves: Seq<Result<Vec<PlannedWrite>, DavServerError>>,
    copies: Seq<Result<Vec<PlannedWrite>, DavServerError>>,
)
    requires
        moves.len() == 5,
        copies.len() == 5,
        call_ensures(store::split_path, (to,), parts),
        call_ensures(DatabaseStore::move_item, (db_store, from, to, Ok(None), other, other), moves[0]),
        call_ensures(
            DatabaseStore::move_item,
            (db_store, from, to, Ok(Some(source)), Ok(None), other),
            moves[1],
        ),
        call_ensures(DatabaseStore::move_item, (db_store, from, to, Err(e), other, other), moves[2]),
        call_ensures(
            DatabaseStore::move_item,
            (db_store, from, to, Ok(Some(source)), Err(e), other),
            moves[3],
        ),
        call_ensures(
            DatabaseStore::move_item,
            (db_store, from, to, Ok(Some(source)), Ok(Some(parent)), Err(e)),
            moves[4],
        ),
        call_ensures(
            DatabaseStore::copy_item,
            (db_store, from, to, Ok(None), other, other, id, now),
            copies[0],
        ),
        call_ensures(
            DatabaseStore::copy_item,
            (db_store, from, to, Ok(Some(source)), Ok(None), other, id, now),
            copies[1],
        ),
        call_ensures(
            DatabaseStore::copy_item,
            (db_store, from, to, Err(e), other, other, id, now),
            copies[2],
        ),
        call_ensures(
            DatabaseStore::copy_item,
            (db_store, from, to, Ok(Some(source)), Err(e), other, id, now),
            copies[3],
        ),
        call_ensures(
            DatabaseStore::copy_item,
            (db_store, from, to, Ok(Some(source)), Ok(Some(parent)), Err(e), id, now),
            copies[4],
        ),
    ensures
        moves[0] is Err && moves[0]->Err_0 is NotFound && text_in(moves[0]->Err_0) == from@,
        copies[0] is Err && copies[0]->Err_0 is NotFound && text_in(copies[0]->Err_0) == from@,
        moves[1] is Err && moves[1]->Err_0 is Conflict && text_in(moves[1]->Err_0)
            == "dest parent not found: "@ + parts.0@,
        copies[1] is Err && copies[1]->Err_0 is Conflict && text_in(copies[1]->Err_0)
            == "dest parent not found: "@ + parts.0@,
        moves[2] is Err && moves[2]->Err_0@ == e@,
        moves[3] is Err && moves[3]->Err_0@ == e@,
        moves[4] is Err && moves[4]->Err_0@ == e@,
        copies[2] is Err && copies[2]->Err_0@ == e@,
        copies[3] is Err && copies[3]->Err_0@ == e@,
        copies[4] is Err && copies[4]->Err_0@ == e@,
{
}

/// An upload to where no parent is, is refused, and a query that fails is reported.
pub proof fn law_misplaced_uploads_are_refused(
    db_store: &DatabaseStore,
    path: &str,
    parts: (String, String),
    data: Vec<u8>,
    parent: DavItem,
    e: DavServerError,
    existing: Result<Option<DavItem>, DavServerError>,
    made: UploadIds,
    job_name: String,
    now: Timestamp,
    a: Result<Vec<PlannedWrite>, DavServerError>,
    b: Result<Vec<PlannedWrite>, DavServerError>,
    c: Result<Vec<PlannedWrite>, DavServerError>,
)
    requires
        call_ensures(store::split_path, (path,), parts),
        call_ensures(
            DatabaseStore::put_nzb,
            (db_store, path, data, Ok(None), existing, made, job_name, now),
            a,
        ),
        call_ensures(
            DatabaseStore::put_nzb,
            (db_store, path, data, Err(e), existing, made, job_name, now),
            b,
        ),
        call_ensures(
            DatabaseStore::put_nzb,
            (db_store, path, data, Ok(Some(parent)), Err(e), made, job_name, now),
            c,
        ),
    ensures
        a is Err && a->Err_0 is Conflict && text_in(a->Err_0) == "parent not found: "@ + parts.0@,
        b is Err && b->Err_0@ == e@,
        c is Err && c->Err_0@ == e@,
{
}

/// A store keeps the number of segments that its streams fetch ahead.
pub proof fn law_stores_keep_their_lookahead(n: usize, db_store: DatabaseStore, r: usize)
    requires
        call_ensures(DatabaseStore::new, (n,), db_store),
        call_ensures(DatabaseStore::lookahead, (&db_store,), r),
    ensures
        r == n,
        db_store.lookahead == n,
{
}

} // verus!
