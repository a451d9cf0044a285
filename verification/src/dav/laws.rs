//! What the operations of the store do to the tables, and what later lookups then see.

use vstd::prelude::*;

use crate::db;
use crate::db::{DbWrite, PlannedWrite, Tables};
use crate::dav::store;
use crate::dav::store::{Resolution, UploadIds};
use crate::ids;
use crate::models::{DavItem, ItemType, QueueItem, Timestamp};
use crate::text;

verus! {

/// What a path leads to in the given tables.
pub open spec fn lookup(t: Tables, path: Seq<char>) -> Resolution {
    store::resolve(
        path,
        Ok(db::item_at(t.items, path)),
        Ok(db::item_at(t.items, path + "/"@)),
        Ok(
            match store::id_named(path) {
                Some(id) => db::item_with(t.items, id),
                None => None,
            },
        ),
        Ok(t.queue),
    )
}

/// The items directly below a directory.
pub open spec fn children(items: Seq<DavItem>, parent: u128) -> Seq<DavItem> {
    items.filter(|i: DavItem| i.parent_id == Some(parent))
}

/// The tables keep one item for each path.
pub open spec fn wf(t: Tables) -> bool {
    db::paths_differ(t.items)
}

/// The name of a path holds no slash, the parent's path ends in one, and the two together
/// are the path without the slashes at its end.
pub proof fn law_split_path_rejoins(path: Seq<char>)
    ensures
        !store::parent_and_name(path).1.contains('/'),
        store::has_slash_end(store::parent_and_name(path).0),
        text::trimmed_end(path, '/').contains('/') ==> store::parent_and_name(path).0
            + store::parent_and_name(path).1 == text::trimmed_end(path, '/'),
{
    let trimmed = text::trimmed_end(path, '/');
    let pos = text::last_position(trimmed, '/');
    text::lemma_trimmed_end(path, '/');
    text::lemma_last_position(trimmed, '/');
    reveal_strlit("/");
    if pos >= 0 {
        assert(store::parent_and_name(path).0 + store::parent_and_name(path).1 =~= trimmed);
    }
}

/// A filtered table keeps one item for each path.
proof fn lemma_filter_keeps_paths(items: Seq<DavItem>, keep: spec_fn(DavItem) -> bool)
    requires
        db::paths_differ(items),
    ensures
        db::paths_differ(items.filter(keep)),
    decreases items.len(),
{
    reveal(Seq::filter);
    if items.len() > 0 {
        let rest = items.drop_last();
        let kept = rest.filter(keep);
        assert forall|i: int, j: int| 0 <= i < j < rest.len() implies (#[trigger] rest[i]).path@
            != (#[trigger] rest[j]).path@ by {
            assert(items[i].path@ != items[j].path@);
        }
        lemma_filter_keeps_paths(rest, keep);
        db::lemma_filter_contains(rest, keep);
        let all = items.filter(keep);
        assert forall|i: int, j: int| 0 <= i < j < all.len() implies (#[trigger] all[i]).path@ != (
        #[trigger] all[j]).path@ by {
            if j < kept.len() {
                assert(kept[i].path@ != kept[j].path@);
            } else {
                assert(all[j] == items.last());
                assert(kept.contains(kept[i]));
                let k = choose|k: int| 0 <= k < rest.len() && rest[k] == kept[i];
                assert(items[k].path@ != items[items.len() - 1].path@);
            }
        }
    }
}

/// What is found at a path once a subtree is gone: the item that was there, unless it lay
/// in the subtree.
proof fn lemma_item_at_without(items: Seq<DavItem>, root: u128, path: Seq<char>)
    requires
        db::paths_differ(items),
    ensures
        db::item_at(db::without_subtree(items, root), path) == (match db::item_at(items, path) {
            Some(i) => if db::in_subtree(items, root, i.id) {
                None
            } else {
                Some(i)
            },
            None => None,
        }),
        db::paths_differ(db::without_subtree(items, root)),
{
    let keep = |i: DavItem| !db::in_subtree(items, root, i.id);
    let left = db::without_subtree(items, root);
    db::lemma_filter_contains(items, keep);
    lemma_filter_keeps_paths(items, keep);
    db::lemma_item_at(items, path);
    db::lemma_item_at(left, path);
    match db::item_at(items, path) {
        Some(i) => {
            if !db::in_subtree(items, root, i.id) {
                assert(left.contains(i));
                db::lemma_item_at_unique(left, i);
            } else {
                match db::item_at(left, path) {
                    Some(j) => {
                        db::lemma_item_at_unique(items, j);
                    },
                    None => {},
                }
            }
        },
        None => {
            match db::item_at(left, path) {
                Some(j) => {
                    db::lemma_item_at_unique(items, j);
                },
                None => {},
            }
        },
    }
}

/// An item lies in its own subtree.
proof fn lemma_in_own_subtree(items: Seq<DavItem>, id: u128)
    ensures
        db::in_subtree(items, id, id),
{
    assert(db::is_below(items, id, id, 0));
}

/// Appending an item under a free path keeps one item for each path.
proof fn lemma_push_keeps_paths(items: Seq<DavItem>, item: DavItem)
    requires
        db::paths_differ(items),
        db::item_at(items, item.path@) is None,
    ensures
        db::paths_differ(items.push(item)),
{
    db::lemma_item_at(items, item.path@);
}

/// The items that are left at the destination of an upload, a move or a copy.
pub open spec fn cleared(items: Seq<DavItem>, existing: Option<DavItem>) -> Seq<DavItem> {
    match existing {
        Some(x) => db::without_subtree(items, x.id),
        None => items,
    }
}

/// Clearing a destination leaves nothing at its path.
proof fn lemma_cleared(items: Seq<DavItem>, to: Seq<char>)
    requires
        db::paths_differ(items),
    ensures
        db::paths_differ(cleared(items, db::item_at(items, to))),
        db::item_at(cleared(items, db::item_at(items, to)), to) is None,
{
    match db::item_at(items, to) {
        Some(x) => {
            lemma_item_at_without(items, x.id, to);
            lemma_in_own_subtree(items, x.id);
        },
        None => {},
    }
}

/// The writes that clear a destination clear it.
pub proof fn lemma_after_clearing(t: Tables, existing: Option<DavItem>)
    ensures
        db::after_writes(t, store::clearing(existing)) == (Tables {
            items: cleared(t.items, existing),
            ..t
        }),
{
    let w = store::clearing(existing);
    match existing {
        Some(x) => {
            assert(w =~= Seq::<PlannedWrite>::empty().push(w[0]));
            db::lemma_after_writes_last(t, Seq::empty(), w[0]);
        },
        None => {},
    }
}

/// A directory that was made is found at its path, at the end of the children of its
/// parent. Nothing else changes.
pub proof fn law_made_directory_is_found(
    t: Tables,
    path: Seq<char>,
    parent: DavItem,
    item: DavItem,
    id: u128,
    now: Timestamp,
)
    requires
        wf(t),
        store::directory_target(
            path,
            Ok(db::item_at(t.items, store::parent_and_name(path).0)),
            Ok(db::item_at(t.items, path)),
        ) == Ok::<DavItem, crate::error::DavErrorView>(parent),
        store::is_new_directory(item, path, parent.id, id, now),
    ensures
        ({
            let after = db::after_writes(
                t,
                seq![PlannedWrite { write: DbWrite::InsertItem(item), required: true }],
            );
            &&& wf(after)
            &&& lookup(after, path) == Resolution::Stored(item)
            &&& item.item_type == ItemType::Directory
            &&& children(after.items, parent.id) == children(t.items, parent.id).push(item)
            &&& forall|p: Seq<char>|
                p != path ==> #[trigger] db::item_at(after.items, p) == db::item_at(t.items, p)
            &&& after == (Tables { items: after.items, ..t })
        }),
{
    let w = seq![PlannedWrite { write: DbWrite::InsertItem(item), required: true }];
    let after = db::after_writes(t, w);
    assert(w =~= Seq::<PlannedWrite>::empty().push(w[0]));
    db::lemma_after_writes_last(t, Seq::empty(), w[0]);
    db::lemma_item_at_push(t.items, item, path);
    lemma_push_keeps_paths(t.items, item);
    assert forall|p: Seq<char>| p != path implies #[trigger] db::item_at(after.items, p)
        == db::item_at(t.items, p) by {
        db::lemma_item_at_push(t.items, item, p);
    }
    assert(after.items.drop_last() =~= t.items);
    reveal(Seq::filter);
}

/// A deleted item is found no more, nor is anything that lay below it. Every other item is
/// found as before.
pub proof fn law_deleted_item_is_gone(t: Tables, path: Seq<char>, item: DavItem)
    requires
        wf(t),
        db::item_at(t.items, path) == Some(item),
    ensures
        store::deletion(path, Ok(Some(item)), Ok(t.queue)) == Ok::<_, crate::error::DavErrorView>(
            seq![PlannedWrite { write: DbWrite::DeleteItem(item.id), required: true }],
        ),
        ({
            let after = db::after_writes(
                t,
                seq![PlannedWrite { write: DbWrite::DeleteItem(item.id), required: true }],
            );
            &&& wf(after)
            &&& db::item_at(after.items, path) is None
            &&& store::has_slash_end(path) ==> lookup(after, path) == Resolution::Nothing
            &&& forall|p: Seq<char>| #[trigger]
                db::item_at(after.items, p) == (match db::item_at(t.items, p) {
                    Some(i) => if db::in_subtree(t.items, item.id, i.id) {
                        None
                    } else {
                        Some(i)
                    },
                    None => None,
                })
            &&& after == (Tables { items: after.items, ..t })
        }),
{
    let w = seq![PlannedWrite { write: DbWrite::DeleteItem(item.id), required: true }];
    let after = db::after_writes(t, w);
    assert(w =~= Seq::<PlannedWrite>::empty().push(w[0]));
    db::lemma_after_writes_last(t, Seq::empty(), w[0]);
    lemma_in_own_subtree(t.items, item.id);
    assert forall|p: Seq<char>| #[trigger]
        db::item_at(after.items, p) == (match db::item_at(t.items, p) {
            Some(i) => if db::in_subtree(t.items, item.id, i.id) {
                None
            } else {
                Some(i)
            },
            None => None,
        }) by {
        lemma_item_at_without(t.items, item.id, p);
    }
    lemma_item_at_without(t.items, item.id, path);
    if store::has_slash_end(path) {
        let name = path.subrange("/nzbs/"@.len() as int, path.len() as int);
        if text::starts_with(path, "/nzbs/"@) && name.len() > 0 {
            assert(name[name.len() - 1] == '/');
        }
    }
}

/// No two queue items share a file name.
pub open spec fn file_names_differ(queue: Seq<QueueItem>) -> bool {
    forall|i: int, j: int|
        0 <= i < j < queue.len() ==> (#[trigger] queue[i]).file_name@ != (
        #[trigger] queue[j]).file_name@
}

/// No two queue items share an identifier.
pub open spec fn queue_ids_differ(queue: Seq<QueueItem>) -> bool {
    forall|i: int, j: int|
        0 <= i < j < queue.len() ==> (#[trigger] queue[i]).id != (#[trigger] queue[j]).id
}

/// What is found in the queue is an item of that name.
pub proof fn lemma_first_queued(queue: Seq<QueueItem>, name: Seq<char>)
    ensures
        store::first_queued(queue, name) matches Some(q) ==> queue.contains(q) && q.file_name@
            == name,
        store::first_queued(queue, name) is None ==> forall|k: int|
            0 <= k < queue.len() ==> (#[trigger] queue[k]).file_name@ != name,
    decreases queue.len(),
{
    if queue.len() > 0 {
        let rest = queue.drop_first();
        lemma_first_queued(rest, name);
        if queue[0].file_name@ == name {
            assert(queue.contains(queue[0]));
        } else {
            match store::first_queued(queue, name) {
                Some(q) => {
                    let k = choose|k: int| 0 <= k < rest.len() && rest[k] == q;
                    assert(queue[k + 1] == q);
                },
                None => {
                    assert forall|k: int| 0 <= k < queue.len() implies (
                    #[trigger] queue[k]).file_name@ != name by {
                        if k > 0 {
                            assert(rest[k - 1] == queue[k]);
                        }
                    }
                },
            }
        }
    }
}

/// Deleting a queued NZB file through the filesystem removes its queue item and its blob,
/// and its path leads to nothing any more. Every other queue item stays.
pub proof fn law_deleted_queue_item_is_gone(t: Tables, path: Seq<char>, qi: QueueItem)
    requires
        file_names_differ(t.queue),
        queue_ids_differ(t.queue),
        lookup(t, path) == Resolution::Queued(qi),
    ensures
        ({
            let writes = seq![
                PlannedWrite { write: DbWrite::DeleteNzbBlob(qi.id), required: false },
                PlannedWrite { write: DbWrite::DeleteQueueItem(qi.id), required: true },
            ];
            let after = db::after_writes(t, writes);
            &&& store::deletion(path, Ok(db::item_at(t.items, path)), Ok(t.queue)) == Ok::<
                _,
                crate::error::DavErrorView,
            >(writes)
            &&& lookup(after, path) == Resolution::Nothing
            &&& !after.nzb_blobs.contains_key(qi.id)
            &&& forall|q: QueueItem| #[trigger]
                after.queue.contains(q) <==> t.queue.contains(q) && q != qi
            &&& after.items == t.items
            &&& after.history == t.history
        }),
{
    let w0 = PlannedWrite { write: DbWrite::DeleteNzbBlob(qi.id), required: false };
    let w1 = PlannedWrite { write: DbWrite::DeleteQueueItem(qi.id), required: true };
    let writes = seq![w0, w1];
    let after = db::after_writes(t, writes);
    assert(writes =~= Seq::<PlannedWrite>::empty().push(w0).push(w1));
    db::lemma_after_writes_last(t, Seq::empty().push(w0), w1);
    db::lemma_after_writes_last(t, Seq::empty(), w0);
    let keep = |q: QueueItem| q.id != qi.id;
    db::lemma_filter_contains(t.queue, keep);
    assert(after.queue == t.queue.filter(keep));
    let name = store::queued_name(path)->0;
    lemma_first_queued(t.queue, name);
    lemma_first_queued(after.queue, name);
    let at = choose|k: int| 0 <= k < t.queue.len() && t.queue[k] == qi;
    assert forall|q: QueueItem| #[trigger]
        after.queue.contains(q) <==> t.queue.contains(q) && q != qi by {
        if t.queue.contains(q) && q != qi {
            let k = choose|k: int| 0 <= k < t.queue.len() && t.queue[k] == q;
            if k < at {
                assert(t.queue[k].id != t.queue[at].id);
            } else {
                assert(t.queue[at].id != t.queue[k].id);
            }
        }
    }
    match store::first_queued(after.queue, name) {
        Some(q) => {
            assert(after.queue.contains(q));
            let k = choose|k: int| 0 <= k < t.queue.len() && t.queue[k] == q;
            if k < at {
                assert(t.queue[k].file_name@ != t.queue[at].file_name@);
            } else if at < k {
                assert(t.queue[at].file_name@ != t.queue[k].file_name@);
            }
        },
        None => {},
    }
}

/// The writes of an upload make way for the item, store its bytes and the item, and queue it
/// where it is to be queued.
pub proof fn lemma_stored(
    t: Tables,
    w: Seq<PlannedWrite>,
    item: DavItem,
    path: Seq<char>,
    data: Seq<u8>,
    existing: Option<DavItem>,
    made: UploadIds,
    job_name: Seq<char>,
    now: Timestamp,
)
    requires
        store::is_storing(w, item, path, data, existing, made, job_name, now),
    ensures
        ({
            let n = (store::blob_clearing(existing) + store::clearing(existing)).len() as int;
            let then = db::after_writes(t, w.take(n + 2));
            &&& then.items == cleared(t.items, existing).push(item)
            &&& then.queue == t.queue
            &&& then.history == t.history
            &&& then.nzb_blobs.contains_key(made.blob)
            &&& then.nzb_blobs[made.blob] == data
            &&& db::after_writes(t, w) == (if store::queued_upload(path, data) is None {
                then
            } else {
                db::after_write(db::after_write(then, w[n + 2].write), w[n + 3].write)
            })
        }),
{
    let b = store::blob_clearing(existing);
    let c = store::clearing(existing);
    let n = (b + c).len() as int;
    let stored = (b + c).push(w[n]).push(w[n + 1]);
    assert(w.take(n + 2) =~= stored) by {
        assert(w.take(n + 2).take(n) =~= w.take(n));
    }
    db::lemma_after_writes_last(t, (b + c).push(w[n]), w[n + 1]);
    db::lemma_after_writes_last(t, b + c, w[n]);
    match existing {
        Some(x) => {
            if b.len() > 0 {
                assert(b + c =~= Seq::<PlannedWrite>::empty().push(b[0]).push(c[0]));
                db::lemma_after_writes_last(t, Seq::empty().push(b[0]), c[0]);
                db::lemma_after_writes_last(t, Seq::empty(), b[0]);
            } else {
                assert(b + c =~= Seq::<PlannedWrite>::empty().push(c[0]));
                db::lemma_after_writes_last(t, Seq::empty(), c[0]);
            }
        },
        None => {
            assert(b + c =~= Seq::<PlannedWrite>::empty());
        },
    }
    if store::queued_upload(path, data) is None {
        assert(w =~= stored);
    } else {
        let queuing = w.skip(n + 2);
        assert(w =~= stored.push(queuing[0]).push(queuing[1]));
        db::lemma_after_writes_last(t, stored.push(queuing[0]), queuing[1]);
        db::lemma_after_writes_last(t, stored, queuing[0]);
    }
}

/// An uploaded NZB file is found at its path, and its blob holds the bytes that were
/// uploaded.
pub proof fn law_uploaded_nzb_is_found(
    t: Tables,
    w: Seq<PlannedWrite>,
    path: Seq<char>,
    parent: DavItem,
    item: DavItem,
    data: Seq<u8>,
    made: UploadIds,
    job_name: Seq<char>,
    now: Timestamp,
)
    requires
        wf(t),
        db::item_at(t.items, store::parent_and_name(path).0) == Some(parent),
        store::is_uploaded(item, path, parent.id, made.item, made.blob, now, data.len()),
        store::is_storing(
            w,
            item,
            path,
            data,
            db::item_at(t.items, path),
            made,
            job_name,
            now,
        ),
    ensures
        ({
            let after = db::after_writes(t, w);
            &&& wf(after)
            &&& lookup(after, path) == Resolution::Stored(item)
            &&& item.nzb_blob_id == Some(made.blob)
            &&& after.nzb_blobs.contains_key(made.blob)
            &&& after.nzb_blobs[made.blob] == data
            &&& after.history == t.history
            &&& store::queued_upload(path, data) is None ==> after.queue == t.queue
            &&& db::item_at(t.items, path) is None ==> forall|p: Seq<char>|
                p != path ==> #[trigger] db::item_at(after.items, p) == db::item_at(t.items, p)
        }),
{
    let existing = db::item_at(t.items, path);
    lemma_stored(t, w, item, path, data, existing, made, job_name, now);
    lemma_cleared(t.items, path);
    let left = cleared(t.items, existing);
    let after = db::after_writes(t, w);
    assert(after.items == left.push(item));
    lemma_push_keeps_paths(left, item);
    db::lemma_item_at_push(left, item, path);
    if existing is None {
        assert forall|p: Seq<char>| p != path implies #[trigger] db::item_at(after.items, p)
            == db::item_at(t.items, p) by {
            db::lemma_item_at_push(left, item, p);
        }
    }
}

/// An NZB file that is uploaded directly below `/nzbs/`, and that can be parsed, is last in
/// the queue under its name, with the bytes that were uploaded as its NZB file.
pub proof fn law_uploaded_nzb_is_queued(
    t: Tables,
    w: Seq<PlannedWrite>,
    item: DavItem,
    name: Seq<char>,
    data: Seq<u8>,
    existing: Option<DavItem>,
    made: UploadIds,
    job_name: Seq<char>,
    now: Timestamp,
)
    requires
        name.len() > 0,
        !name.contains('/'),
        crate::nzb::nzb_read(data) is Ok,
        store::is_storing(w, item, "/nzbs/"@ + name, data, existing, made, job_name, now),
    ensures
        ({
            let after = db::after_writes(t, w);
            &&& after.queue.len() == t.queue.len() + 1
            &&& after.queue.drop_last() == t.queue
            &&& after.queue.last().id == made.queue
            &&& after.queue.last().file_name@ == name
            &&& after.queue.last().job_name@ == job_name
            &&& after.nzb_blobs.contains_key(made.queue)
            &&& after.nzb_blobs[made.queue] == data
        }),
{
    let path = "/nzbs/"@ + name;
    let k = "/nzbs/"@.len() as int;
    assert(path.subrange(0, k) =~= "/nzbs/"@);
    assert(path.subrange(k, path.len() as int) =~= name);
    assert(store::queued_name(path) == Some(name));
    store::lemma_queued_name(path);
    lemma_stored(t, w, item, path, data, existing, made, job_name, now);
    let after = db::after_writes(t, w);
    assert(after.queue.drop_last() =~= t.queue);
}

/// Every item can be reached by its identifier, without its path: below `/.ids/`, as long as
/// nothing is stored there under that name.
pub proof fn law_item_is_found_by_id(t: Tables, item: DavItem)
    requires
        db::ids_differ(t.items),
        t.items.contains(item),
        db::item_at(t.items, "/.ids/"@ + ids::uuid_text(item.id)) is None,
        db::item_at(t.items, "/.ids/"@ + ids::uuid_text(item.id) + "/"@) is None,
    ensures
        lookup(t, "/.ids/"@ + ids::uuid_text(item.id)) == Resolution::Stored(item),
{
    let name = ids::uuid_text(item.id);
    let path = "/.ids/"@ + name;
    let k = "/.ids/"@.len() as int;
    assert(path.subrange(0, k) =~= "/.ids/"@);
    assert(path.subrange(k, path.len() as int) =~= name);
    ids::law_uuid_text_parses_back(item.id);
    ids::lemma_uuid_text_chars(item.id);
    assert(path.last() == name.last());
    assert(name.contains(name[name.len() - 1]));
    db::lemma_item_with_unique(t.items, item);
}

/// A copied item is found at the destination with the content of the source. The source
/// stays, unless the copy replaced a directory above it.
pub proof fn law_copied_item_is_found(
    t: Tables,
    from: Seq<char>,
    to: Seq<char>,
    source: DavItem,
    parent: DavItem,
    copy: DavItem,
    id: u128,
    now: Timestamp,
)
    requires
        wf(t),
        db::item_at(t.items, from) == Some(source),
        db::item_at(t.items, store::parent_and_name(to).0) == Some(parent),
        store::is_copy_of(copy, source, to, parent.id, id, now),
    ensures
        ({
            let existing = db::item_at(t.items, to);
            let after = db::after_writes(
                t,
                store::clearing(existing) + seq![
                    PlannedWrite { write: DbWrite::InsertItem(copy), required: true },
                ],
            );
            &&& wf(after)
            &&& lookup(after, to) == Resolution::Stored(copy)
            &&& copy.file_blob_id == source.file_blob_id
            &&& copy.nzb_blob_id == source.nzb_blob_id
            &&& copy.file_size == source.file_size
            &&& copy.item_type == source.item_type
            &&& copy.sub_type == source.sub_type
            &&& from != to && !(existing is Some && db::in_subtree(
                t.items,
                existing->0.id,
                source.id,
            )) ==> db::item_at(after.items, from) == Some(source)
            &&& after == (Tables { items: after.items, ..t })
        }),
{
    let existing = db::item_at(t.items, to);
    let insert = PlannedWrite { write: DbWrite::InsertItem(copy), required: true };
    let c = store::clearing(existing);
    let left = cleared(t.items, existing);
    let after = db::after_writes(t, c + seq![insert]);
    assert(c + seq![insert] =~= c.push(insert));
    db::lemma_after_writes_last(t, c, insert);
    lemma_after_clearing(t, existing);
    lemma_cleared(t.items, to);
    lemma_push_keeps_paths(left, copy);
    db::lemma_item_at_push(left, copy, to);
    db::lemma_item_at_push(left, copy, from);
    match existing {
        Some(x) => {
            lemma_item_at_without(t.items, x.id, from);
        },
        None => {},
    }
}

/// Where no two items share an identifier, items at other paths have other ones.
proof fn lemma_same_id(items: Seq<DavItem>, found: Option<DavItem>, source: DavItem)
    requires
        db::ids_differ(items),
        items.contains(source),
        found matches Some(x) ==> items.contains(x) && x.path@ != source.path@,
    ensures
        store::other_than(found, source) == found,
{
    if let Some(x) = found {
        let a = choose|a: int| 0 <= a < items.len() && items[a] == x;
        let b = choose|b: int| 0 <= b < items.len() && items[b] == source;
        if a < b {
            assert(items[a].id != items[b].id);
        } else if b < a {
            assert(items[b].id != items[a].id);
        }
    }
}

/// A moved item is found at the destination, with its new name and parent and otherwise
/// unchanged, and no more at the path that it had, where that is another. Every other item
/// that the move did not replace is found as before. An item that is moved to where it is
/// stays there.
pub proof fn law_moved_item_is_found(
    t: Tables,
    from: Seq<char>,
    to: Seq<char>,
    source: DavItem,
    parent: DavItem,
    name: String,
    path: String,
)
    requires
        wf(t),
        db::ids_differ(t.items),
        db::item_at(t.items, from) == Some(source),
        db::item_at(t.items, store::parent_and_name(to).0) == Some(parent),
        name@ == store::parent_and_name(to).1,
        path@ == to,
        !(store::other_than(db::item_at(t.items, to), source) matches Some(x) && db::in_subtree(
            t.items,
            x.id,
            source.id,
        )),
    ensures
        ({
            let existing = store::other_than(db::item_at(t.items, to), source);
            let after = db::after_writes(
                t,
                store::clearing(existing) + seq![
                    PlannedWrite {
                        write: DbWrite::RenameItem {
                            id: source.id,
                            name,
                            path,
                            parent_id: parent.id,
                        },
                        required: true,
                    },
                ],
            );
            &&& wf(after)
            &&& lookup(after, to) matches Resolution::Stored(item)
            &&& db::is_renamed(source, item, store::parent_and_name(to).1, to, parent.id)
            &&& from != to ==> db::item_at(after.items, from) is None
            &&& forall|p: Seq<char>|
                p != from && p != to ==> #[trigger] db::item_at(after.items, p) == db::item_at(
                    cleared(t.items, existing),
                    p,
                )
            &&& existing is None ==> cleared(t.items, existing) == t.items
            &&& after == (Tables { items: after.items, ..t })
        }),
{
    let existing = store::other_than(db::item_at(t.items, to), source);
    let rename = PlannedWrite {
        write: DbWrite::RenameItem { id: source.id, name, path, parent_id: parent.id },
        required: true,
    };
    let c = store::clearing(existing);
    let left = cleared(t.items, existing);
    let after = db::after_writes(t, c + seq![rename]);
    assert(c + seq![rename] =~= c.push(rename));
    db::lemma_after_writes_last(t, c, rename);
    lemma_after_clearing(t, existing);
    db::lemma_item_at(t.items, from);
    db::lemma_item_at(t.items, to);
    if from != to {
        lemma_cleared(t.items, to);
        assert(existing == db::item_at(t.items, to)) by {
            lemma_same_id(t.items, db::item_at(t.items, to), source);
        }
    }
    match existing {
        Some(x) => {
            lemma_item_at_without(t.items, x.id, from);
            db::lemma_filter_contains(t.items, |i: DavItem| !db::in_subtree(t.items, x.id, i.id));
        },
        None => {},
    }
    assert(db::item_at(left, from) == Some(source));
    db::lemma_item_at(left, from);
    db::lemma_item_at(left, to);
    let moved = DavItem { name, path, parent_id: Some(parent.id), ..source };
    assert(forall|x: DavItem| left.contains(x) ==> t.items.contains(x));
    let at = choose|k: int| 0 <= k < left.len() && left[k] == source;
    assert forall|k: int| 0 <= k < left.len() implies #[trigger] after.items[k] == (if k == at {
        moved
    } else {
        left[k]
    }) by {
        if k != at && left[k].id == source.id {
            assert(left.contains(left[k]));
            let a = choose|a: int| 0 <= a < t.items.len() && t.items[a] == left[k];
            let b = choose|b: int| 0 <= b < t.items.len() && t.items[b] == source;
            if a < b {
                assert(t.items[a].id != t.items[b].id);
            } else if b < a {
                assert(t.items[b].id != t.items[a].id);
            }
            if k < at {
                assert(left[k].path@ != left[at].path@);
            } else {
                assert(left[at].path@ != left[k].path@);
            }
        }
    }
    assert(db::paths_differ(after.items)) by {
        assert forall|i: int, j: int| 0 <= i < j < after.items.len() implies (
        #[trigger] after.items[i]).path@ != (#[trigger] after.items[j]).path@ by {
            assert(left[i].path@ != left[j].path@);
            if from != to {
                assert(left[i].path@ != to && left[j].path@ != to);
            }
        }
    }
    assert(after.items[at] == moved);
    assert(after.items.contains(moved));
    db::lemma_item_at_unique(after.items, moved);
    db::lemma_item_at(after.items, from);
    match db::item_at(after.items, from) {
        Some(x) if from != to => {
            let k = choose|k: int| 0 <= k < after.items.len() && after.items[k] == x;
            assert(k != at);
            if k < at {
                assert(left[k].path@ != left[at].path@);
            } else {
                assert(left[at].path@ != left[k].path@);
            }
        },
        _ => {},
    }
    assert forall|p: Seq<char>| p != from && p != to implies #[trigger] db::item_at(after.items, p)
        == db::item_at(left, p) by {
        db::lemma_item_at(left, p);
        db::lemma_item_at(after.items, p);
        match db::item_at(left, p) {
            Some(x) => {
                let k = choose|k: int| 0 <= k < left.len() && left[k] == x;
                assert(after.items[k] == x);
                assert(after.items.contains(x));
                db::lemma_item_at_unique(after.items, x);
            },
            None => {
                match db::item_at(after.items, p) {
                    Some(x) => {
                        let k = choose|k: int| 0 <= k < after.items.len() && after.items[k] == x;
                        assert(k != at);
                        assert(left[k] == x);
                    },
                    None => {},
                }
            },
        }
    }
}

/// What is found in a queue that an item was appended to.
proof fn lemma_first_queued_push(queue: Seq<QueueItem>, qi: QueueItem, name: Seq<char>)
    ensures
        store::first_queued(queue.push(qi), name) == (match store::first_queued(queue, name) {
            Some(q) => Some(q),
            None => if qi.file_name@ == name {
                Some(qi)
            } else {
                None
            },
        }),
    decreases queue.len(),
{
    let longer = queue.push(qi);
    if queue.len() == 0 {
        assert(longer.drop_first() =~= queue);
    } else {
        assert(longer.drop_first() =~= queue.drop_first().push(qi));
        lemma_first_queued_push(queue.drop_first(), qi, name);
    }
}

/// `/nzbs/` mirrors the queue: an NZB file that is queued is found there under its name,
/// as long as nothing else has that path.
pub proof fn law_queued_file_is_shown(t: Tables, qi: QueueItem)
    requires
        qi.file_name@.len() > 0,
        !qi.file_name@.contains('/'),
        lookup(t, "/nzbs/"@ + qi.file_name@) == Resolution::Nothing,
    ensures
        lookup(db::after_write(t, DbWrite::InsertQueueItem(qi)), "/nzbs/"@ + qi.file_name@)
            == Resolution::Queued(qi),
{
    let name = qi.file_name@;
    let path = "/nzbs/"@ + name;
    let n = "/nzbs/"@.len() as int;
    reveal_strlit("/nzbs/");
    reveal_strlit("/.ids/");
    assert(path[1] == 'n');
    assert(store::id_named(path) is None) by {
        if text::starts_with(path, "/.ids/"@) {
            assert(path.subrange(0, 6)[1] == '.');
        }
    }
    assert(path.subrange(0, n) =~= "/nzbs/"@);
    assert(path.subrange(n, path.len() as int) =~= name);
    assert(path.last() == name.last());
    assert(name.last() != '/') by {
        assert(name.contains(name[name.len() - 1]));
    }
    lemma_first_queued_push(t.queue, qi, name);
}

} // verus!
