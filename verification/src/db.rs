//! The tables behind the filesystem, and the writes that change them.

use vstd::prelude::*;

use crate::models::{DavItem, HistoryItem, QueueItem, Timestamp};

verus! {

/// One change of the database.
#[derive(Clone, Debug, PartialEq, Eq)]
pub enum DbWrite {
    InsertItem(DavItem),
    /// Deletes an item and all that lies below it.
    DeleteItem(u128),
    RenameItem { id: u128, name: String, path: String, parent_id: u128 },
    PutNzbBlob { id: u128, data: Vec<u8> },
    DeleteNzbBlob(u128),
    PutFileBlob { id: u128, data: Vec<u8> },
    InsertQueueItem(QueueItem),
    DeleteQueueItem(u128),
    PauseQueueItem { id: u128, until: Timestamp },
    InsertHistoryItem(HistoryItem),
    DeleteHistoryItem(u128),
    ClearHistory,
}

/// A change of the database, and whether its failure ends the request.
#[derive(Clone, Debug, PartialEq, Eq)]
pub struct PlannedWrite {
    pub write: DbWrite,
    /// Whether a failure is reported. Where it is not, the next write follows all the same.
    pub required: bool,
}

/// Which of the planned writes failed, and how.
#[derive(Clone, Debug, PartialEq, Eq)]
pub struct WriteFailure {
    pub index: usize,
    pub error: String,
}

/// A write whose failure ends the request.
pub fn required(write: DbWrite) -> (r: PlannedWrite)
    ensures
        r == (PlannedWrite { write, required: true }),
{
    PlannedWrite { write, required: true }
}

/// A write whose failure is passed over.
pub fn best_effort(write: DbWrite) -> (r: PlannedWrite)
    ensures
        r == (PlannedWrite { write, required: false }),
{
    PlannedWrite { write, required: false }
}

/// What the tables hold.
pub struct Tables {
    pub items: Seq<DavItem>,
    pub queue: Seq<QueueItem>,
    pub history: Seq<HistoryItem>,
    pub nzb_blobs: Map<u128, Seq<u8>>,
    pub file_blobs: Map<u128, Seq<u8>>,
}

/// The first item with this path.
pub open spec fn item_at(items: Seq<DavItem>, path: Seq<char>) -> Option<DavItem>
    decreases items.len(),
{
    if items.len() == 0 {
        None
    } else if items[0].path@ == path {
        Some(items[0])
    } else {
        item_at(items.drop_first(), path)
    }
}

/// The first item with this identifier.
pub open spec fn item_with(items: Seq<DavItem>, id: u128) -> Option<DavItem>
    decreases items.len(),
{
    if items.len() == 0 {
        None
    } else if items[0].id == id {
        Some(items[0])
    } else {
        item_with(items.drop_first(), id)
    }
}

/// Whether `node` is `root` or lies at most `depth` levels below it.
pub open spec fn is_below(items: Seq<DavItem>, root: u128, node: u128, depth: nat) -> bool
    decreases depth,
{
    node == root || (depth > 0 && exists|i: int|
        0 <= i < items.len() && (#[trigger] items[i]).id == node && items[i].parent_id is Some
            && is_below(items, root, items[i].parent_id->0, (depth - 1) as nat))
}

/// Whether `node` is `root` or lies below it.
pub open spec fn in_subtree(items: Seq<DavItem>, root: u128, node: u128) -> bool {
    exists|depth: nat| is_below(items, root, node, depth)
}

/// The items that are left when `root` is deleted with all that lies below it.
pub open spec fn without_subtree(items: Seq<DavItem>, root: u128) -> Seq<DavItem> {
    items.filter(|i: DavItem| !in_subtree(items, root, i.id))
}

/// Whether two items differ in at most name, path and parent, and the second has these.
pub open spec fn is_renamed(
    before: DavItem,
    after: DavItem,
    name: Seq<char>,
    path: Seq<char>,
    parent: u128,
) -> bool {
    &&& after.name@ == name
    &&& after.path@ == path
    &&& after.parent_id == Some(parent)
    &&& after == (DavItem {
        name: after.name,
        path: after.path,
        parent_id: after.parent_id,
        ..before
    })
}

/// Every item with this identifier renamed.
pub open spec fn renamed(
    items: Seq<DavItem>,
    id: u128,
    name: String,
    path: String,
    parent: u128,
) -> Seq<DavItem> {
    items.map_values(
        |i: DavItem|
            if i.id == id {
                DavItem { name, path, parent_id: Some(parent), ..i }
            } else {
                i
            },
    )
}

/// The tables after one write.
pub open spec fn after_write(t: Tables, w: DbWrite) -> Tables {
    match w {
        DbWrite::InsertItem(item) => Tables { items: t.items.push(item), ..t },
        DbWrite::DeleteItem(id) => Tables { items: without_subtree(t.items, id), ..t },
        DbWrite::RenameItem { id, name, path, parent_id } => Tables {
            items: renamed(t.items, id, name, path, parent_id),
            ..t
        },
        DbWrite::PutNzbBlob { id, data } => Tables {
            nzb_blobs: t.nzb_blobs.insert(id, data@),
            ..t
        },
        DbWrite::DeleteNzbBlob(id) => Tables { nzb_blobs: t.nzb_blobs.remove(id), ..t },
        DbWrite::PutFileBlob { id, data } => Tables {
            file_blobs: t.file_blobs.insert(id, data@),
            ..t
        },
        DbWrite::InsertQueueItem(q) => Tables { queue: t.queue.push(q), ..t },
        DbWrite::DeleteQueueItem(id) => Tables {
            queue: t.queue.filter(|q: QueueItem| q.id != id),
            ..t
        },
        DbWrite::PauseQueueItem { id, until } => Tables {
            queue: t.queue.map_values(
                |q: QueueItem|
                    if q.id == id {
                        QueueItem { pause_until: Some(until), ..q }
                    } else {
                        q
                    },
            ),
            ..t
        },
        DbWrite::InsertHistoryItem(h) => Tables { history: t.history.push(h), ..t },
        DbWrite::DeleteHistoryItem(id) => Tables {
            history: t.history.filter(|h: HistoryItem| h.id != id),
            ..t
        },
        DbWrite::ClearHistory => Tables { history: Seq::empty(), ..t },
    }
}

/// The tables after all the writes, in their order.
pub open spec fn after_writes(t: Tables, writes: Seq<PlannedWrite>) -> Tables
    decreases writes.len(),
{
    if writes.len() == 0 {
        t
    } else {
        after_write(after_writes(t, writes.drop_last()), writes.last().write)
    }
}

/// An item appended last is found at its path, unless one stood there before.
pub proof fn lemma_item_at_push(items: Seq<DavItem>, item: DavItem, path: Seq<char>)
    ensures
        item_at(items.push(item), path) == (match item_at(items, path) {
            Some(i) => Some(i),
            None => if item.path@ == path {
                Some(item)
            } else {
                None
            },
        }),
    decreases items.len(),
{
    let longer = items.push(item);
    if items.len() == 0 {
        assert(longer.drop_first() =~= items);
    } else {
        assert(longer.drop_first() =~= items.drop_first().push(item));
        lemma_item_at_push(items.drop_first(), item, path);
    }
}

/// What is found at a path is an item with that path, and something is found where one is.
pub proof fn lemma_item_at(items: Seq<DavItem>, path: Seq<char>)
    ensures
        item_at(items, path) matches Some(i) ==> items.contains(i) && i.path@ == path,
        item_at(items, path) is None ==> forall|k: int|
            0 <= k < items.len() ==> (#[trigger] items[k]).path@ != path,
    decreases items.len(),
{
    if items.len() > 0 {
        let rest = items.drop_first();
        lemma_item_at(rest, path);
        if items[0].path@ == path {
            assert(items.contains(items[0]));
        } else {
            match item_at(items, path) {
                Some(i) => {
                    let k = choose|k: int| 0 <= k < rest.len() && rest[k] == i;
                    assert(items[k + 1] == i);
                },
                None => {
                    assert forall|k: int| 0 <= k < items.len() implies (
                    #[trigger] items[k]).path@ != path by {
                        if k > 0 {
                            assert(rest[k - 1] == items[k]);
                        }
                    }
                },
            }
        }
    }
}

/// No two items share a path.
pub open spec fn paths_differ(items: Seq<DavItem>) -> bool {
    forall|i: int, j: int|
        0 <= i < j < items.len() ==> (#[trigger] items[i]).path@ != (#[trigger] items[j]).path@
}

/// No two items share an identifier.
pub open spec fn ids_differ(items: Seq<DavItem>) -> bool {
    forall|i: int, j: int|
        0 <= i < j < items.len() ==> (#[trigger] items[i]).id != (#[trigger] items[j]).id
}

/// Where no two items share a path, the item with a path is the one found there.
pub proof fn lemma_item_at_unique(items: Seq<DavItem>, item: DavItem)
    requires
        paths_differ(items),
        items.contains(item),
    ensures
        item_at(items, item.path@) == Some(item),
{
    lemma_item_at(items, item.path@);
    let k = choose|k: int| 0 <= k < items.len() && items[k] == item;
    match item_at(items, item.path@) {
        Some(found) => {
            let j = choose|j: int| 0 <= j < items.len() && items[j] == found;
            if j < k {
                assert(items[j].path@ != items[k].path@);
            } else if k < j {
                assert(items[k].path@ != items[j].path@);
            }
        },
        None => {
            assert(items[k].path@ != item.path@);
        },
    }
}

/// Where no two items share an identifier, the item with one is the one found under it.
pub proof fn lemma_item_with_unique(items: Seq<DavItem>, item: DavItem)
    requires
        ids_differ(items),
        items.contains(item),
    ensures
        item_with(items, item.id) == Some(item),
    decreases items.len(),
{
    let k = choose|k: int| 0 <= k < items.len() && items[k] == item;
    if k > 0 {
        assert(items[0].id != items[k].id);
        let rest = items.drop_first();
        assert(rest[k - 1] == item);
        assert forall|i: int, j: int| 0 <= i < j < rest.len() implies (#[trigger] rest[i]).id != (
        #[trigger] rest[j]).id by {
            assert(items[i + 1].id != items[j + 1].id);
        }
        lemma_item_with_unique(rest, item);
    }
}

/// A filtered table holds the rows that pass the filter.
pub proof fn lemma_filter_contains<A>(s: Seq<A>, keep: spec_fn(A) -> bool)
    ensures
        forall|x: A| #[trigger] s.filter(keep).contains(x) <==> s.contains(x) && keep(x),
    decreases s.len(),
{
    reveal(Seq::filter);
    if s.len() > 0 {
        let rest = s.drop_last();
        let kept = rest.filter(keep);
        lemma_filter_contains(rest, keep);
        assert forall|x: A| #[trigger]
            s.filter(keep).contains(x) <==> s.contains(x) && keep(x) by {
            if s.contains(x) && keep(x) {
                let k = choose|k: int| 0 <= k < s.len() && s[k] == x;
                if k < rest.len() {
                    assert(rest[k] == x);
                    assert(kept.contains(x));
                    let j = choose|j: int| 0 <= j < kept.len() && kept[j] == x;
                    assert(s.filter(keep)[j] == x);
                } else {
                    assert(s.filter(keep)[kept.len() as int] == x);
                }
            }
            if s.filter(keep).contains(x) {
                let j = choose|j: int| 0 <= j < s.filter(keep).len() && s.filter(keep)[j] == x;
                if j < kept.len() {
                    assert(kept.contains(kept[j]));
                    let k = choose|k: int| 0 <= k < rest.len() && rest[k] == x;
                    assert(s[k] == x);
                } else {
                    assert(s[s.len() - 1] == x);
                }
            }
        }
    }
}

/// Where everything is kept, nothing changes.
pub proof fn lemma_filter_all<A>(s: Seq<A>, keep: spec_fn(A) -> bool)
    requires
        forall|i: int| 0 <= i < s.len() ==> keep(#[trigger] s[i]),
    ensures
        s.filter(keep) == s,
    decreases s.len(),
{
    reveal(Seq::filter);
    if s.len() > 0 {
        let rest = s.drop_last();
        assert forall|i: int| 0 <= i < rest.len() implies keep(#[trigger] rest[i]) by {
            assert(rest[i] == s[i]);
        }
        lemma_filter_all(rest, keep);
        assert(keep(s[s.len() - 1]));
        assert(s.filter(keep) =~= s);
    } else {
        assert(s.filter(keep) =~= s);
    }
}

/// What was kept once is kept again.
pub proof fn lemma_filter_twice<A>(s: Seq<A>, keep: spec_fn(A) -> bool)
    ensures
        s.filter(keep).filter(keep) == s.filter(keep),
    decreases s.len(),
{
    reveal(Seq::filter);
    if s.len() > 0 {
        let kept = s.drop_last().filter(keep);
        lemma_filter_twice(s.drop_last(), keep);
        if keep(s.last()) {
            assert(kept.push(s.last()).drop_last() =~= kept);
        }
    }
}

/// The writes up to the last one, and the last one.
pub proof fn lemma_after_writes_last(t: Tables, writes: Seq<PlannedWrite>, last: PlannedWrite)
    ensures
        after_writes(t, writes.push(last)) == after_write(
            after_writes(t, writes),
            last.write,
        ),
{
    assert(writes.push(last).drop_last() =~= writes);
}

/// A planned write is the one that was planned, and says whether its failure counts.
pub proof fn law_writes_are_planned_as_asked(w: DbWrite, a: PlannedWrite, b: PlannedWrite)
    requires
        call_ensures(required, (w,), a),
        call_ensures(best_effort, (w,), b),
    ensures
        a.write == w && a.required,
        b.write == w && !b.required,
{
}

} // verus!
