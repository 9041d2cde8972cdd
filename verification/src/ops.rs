//! What each store operation does, as functions of the table.

use vstd::prelude::*;
use crate::error::StoreErrorView;
use crate::node::{Node, NodeKind};
use crate::table::{Entry, Table, MAX_DEPTH};
use crate::store::MAX_ROWS;
use crate::walk::CYCLE_GUARD;

verus! {

/// The most nodes that one page holds.
pub const PAGE_LIMIT: i64 = 1000;

/// `r` is the first root in sibling order.
pub open spec fn is_first_root(t: Table, r: i64) -> bool {
    &&& crate::table::sits_under(t, None, r)
    &&& forall|y: i64|
        #[trigger] crate::table::sits_under(t, None, y) && y != r ==> crate::table::before(t, r, y)
}

/// The root, if there is one.
pub open spec fn root_of(t: Table) -> Option<i64> {
    if exists|r: i64| is_first_root(t, r) {
        Some(choose|r: i64| is_first_root(t, r))
    } else {
        None
    }
}

/// The folder that is meant: the one named, else the root.
pub open spec fn target(t: Table, parent: Option<i64>) -> Option<i64> {
    match parent {
        Some(p) => Some(p),
        None => root_of(t),
    }
}

/// Why `id` is not a folder.
pub open spec fn folder_error(t: Table, id: i64) -> Option<StoreErrorView> {
    if !t.dom().contains(id) {
        Some(StoreErrorView::NotFound(id))
    } else if t[id].kind != NodeKind::Folder {
        Some(StoreErrorView::NotAFolder(id))
    } else {
        None
    }
}

/// Why the folder that is meant cannot be read.
pub open spec fn target_error(t: Table, parent: Option<i64>) -> Option<StoreErrorView> {
    match target(t, parent) {
        None => Some(StoreErrorView::Sqlite("Query returned no rows"@)),
        Some(p) => folder_error(t, p),
    }
}

/// Why a text argument is refused.
pub open spec fn text_error(what: Seq<char>, s: Seq<char>) -> Option<StoreErrorView> {
    if crate::text::blank(s) {
        Some(StoreErrorView::InvalidArg(what + " must not be empty"@))
    } else {
        None
    }
}

/// `n` is the next free position under `p`: one more than the highest, or 0.
pub open spec fn is_next_position(t: Table, p: i64, n: i64) -> bool {
    &&& forall|x: i64| #[trigger]
        crate::table::sits_under(t, Some(p), x) ==> t[x].position < n
    &&& (n == 0 && forall|x: i64| !crate::table::sits_under(t, Some(p), x)) || exists|x: i64| #[trigger]
        crate::table::sits_under(t, Some(p), x) && t[x].position == n - 1
}

/// The next free position under `p`.
pub open spec fn next_position(t: Table, p: i64) -> i64 {
    choose|n: i64| is_next_position(t, p, n)
}

/// No position is left under `p`.
pub open spec fn positions_exhausted(t: Table, p: i64) -> bool {
    exists|x: i64| #[trigger] crate::table::sits_under(t, Some(p), x) && t[x].position == i64::MAX
}

/// The next free position is determined by the table.
pub proof fn lemma_next_position(t: Table, p: i64, n: i64)
    requires
        is_next_position(t, p, n),
    ensures
        next_position(t, p) == n,
        !positions_exhausted(t, p),
{
    let m = next_position(t, p);
    assert(is_next_position(t, p, m));
    if exists|x: i64| #[trigger] crate::table::sits_under(t, Some(p), x) && t[x].position == n - 1 {
        let x = choose|x: i64| #[trigger]
            crate::table::sits_under(t, Some(p), x) && t[x].position == n - 1;
        assert(t[x].position < m);
        let y = choose|y: i64| #[trigger]
            crate::table::sits_under(t, Some(p), y) && t[y].position == m - 1;
        assert(t[y].position < n);
    }
}

/// What the database reports when the next position is no longer an integer.
pub open spec fn position_error() -> StoreErrorView {
    StoreErrorView::Sqlite(
        "Invalid column type Real at index: 0, name: COALESCE(MAX(position) + 1, 0)"@,
    )
}

/// `id` is an id that a new row gets: one more than the largest in use, 1 in an
/// empty table; with the largest possible id in use, any free positive one.
pub open spec fn is_new_id(t: Table, id: i64) -> bool {
    &&& !t.dom().contains(id)
    &&& (forall|x: i64| !t.dom().contains(x)) ==> id == 1
    &&& forall|m: i64|
        #![trigger t.dom().contains(m)]
        t.dom().contains(m) && (forall|x: i64| t.dom().contains(x) ==> x <= m) ==> (if m < i64::MAX {
            id == m + 1
        } else {
            id >= 1
        })
}

/// Why nothing can be created under `parent`.
pub open spec fn place_error(t: Table, parent: Option<i64>) -> Option<StoreErrorView> {
    if target_error(t, parent) is Some {
        target_error(t, parent)
    } else {
        let p = target(t, parent)->0;
        if crate::table::up(t, p, MAX_DEPTH as nat) is Some {
            Some(StoreErrorView::MaxDepthExceeded)
        } else if positions_exhausted(t, p) {
            Some(position_error())
        } else if t.dom().len() >= MAX_ROWS {
            Some(StoreErrorView::Sqlite("database or disk is full"@))
        } else {
            None
        }
    }
}

/// Why a folder cannot be created.
pub open spec fn create_folder_error(t: Table, parent: Option<i64>, title: Seq<char>) -> Option<
    StoreErrorView,
> {
    if text_error("title"@, title) is Some {
        text_error("title"@, title)
    } else {
        place_error(t, parent)
    }
}

/// Why a bookmark cannot be created.
pub open spec fn create_bookmark_error(
    t: Table,
    parent: Option<i64>,
    title: Seq<char>,
    url: Seq<char>,
) -> Option<StoreErrorView> {
    if text_error("title"@, title) is Some {
        text_error("title"@, title)
    } else if text_error("url"@, url) is Some {
        text_error("url"@, url)
    } else {
        place_error(t, parent)
    }
}

/// The table with a new node at the end of `parent`'s children.
pub open spec fn with_new(
    t: Table,
    parent: Option<i64>,
    id: i64,
    kind: NodeKind,
    title: Seq<char>,
    url: Option<Seq<char>>,
    now: i64,
) -> Table {
    let p = target(t, parent)->0;
    t.insert(
        id,
        Entry {
            parent: Some(p),
            kind,
            title,
            url,
            position: next_position(t, p),
            created: now,
            modified: now,
            hidden: false,
        },
    )
}

/// Why a node cannot be changed: it does not exist, or is a root.
pub open spec fn node_error(t: Table, id: i64) -> Option<StoreErrorView> {
    if !t.dom().contains(id) {
        Some(StoreErrorView::NotFound(id))
    } else if t[id].parent is None {
        Some(StoreErrorView::CannotModifyRoot)
    } else {
        None
    }
}

/// Why a node cannot be renamed.
pub open spec fn rename_error(t: Table, id: i64, title: Seq<char>) -> Option<StoreErrorView> {
    if text_error("title"@, title) is Some {
        text_error("title"@, title)
    } else {
        node_error(t, id)
    }
}

/// The table with one node renamed.
pub open spec fn renamed(t: Table, id: i64, title: Seq<char>, now: i64) -> Table {
    t.insert(id, Entry { title, modified: now, ..t[id] })
}

/// `id` is `under` or above it, or the chain above `under` is too long to tell.
pub open spec fn cyclic(t: Table, id: i64, under: i64) -> bool {
    ||| exists|k: nat| #[trigger] crate::table::up(t, under, k) == Some(id)
    ||| crate::table::up(t, under, CYCLE_GUARD as nat) is Some
}

/// Under `under`, the deepest node of `id`'s subtree would be too deep.
pub open spec fn too_deep(t: Table, id: i64, under: i64) -> bool {
    exists|d: nat, h: nat|
        {
            &&& #[trigger] crate::table::up(t, under, d) is Some
            &&& #[trigger] crate::walk::level_used(t, id, h)
            &&& d + 1 + h > MAX_DEPTH
        }
}

/// Why `id` cannot be moved under `under`.
pub open spec fn move_error(t: Table, id: i64, under: i64) -> Option<StoreErrorView> {
    if node_error(t, id) is Some {
        node_error(t, id)
    } else if folder_error(t, under) is Some {
        folder_error(t, under)
    } else if cyclic(t, id, under) {
        Some(StoreErrorView::CycleDetected)
    } else if too_deep(t, id, under) {
        Some(StoreErrorView::MaxDepthExceeded)
    } else {
        None
    }
}

/// The index at which a moved node is inserted among `n` siblings.
pub open spec fn insert_index(position: Option<i64>, n: nat) -> int {
    match position {
        None => n as int,
        Some(i) => if i < 0 {
            0
        } else if i > n {
            n as int
        } else {
            i as int
        },
    }
}

/// The table with `id` under `under`, at `index` among the other children there.
pub open spec fn placed(t: Table, id: i64, under: i64, index: int, now: i64) -> Table {
    let others = t.remove(id);
    Map::new(
        |x: i64| t.dom().contains(x),
        |x: i64|
            if x == id {
                Entry { parent: Some(under), position: index as i64, modified: now, ..t[id] }
            } else if crate::table::sits_under(t, Some(under), x) {
                let r = crate::table::rank(others, Some(under), x);
                Entry {
                    position: (if r < index {
                        r
                    } else {
                        r + 1
                    }) as i64,
                    ..t[x]
                }
            } else {
                t[x]
            },
    )
}

/// The table with `id` moved under `under`: taken out of its folder first, then
/// inserted; the folder that it left is renumbered.
pub open spec fn moved(t: Table, id: i64, under: i64, position: Option<i64>, now: i64) -> Table {
    let n = crate::table::kids(t.remove(id), Some(under)).len();
    let p = placed(t, id, under, insert_index(position, n), now);
    if t[id].parent == Some(under) {
        p
    } else {
        crate::table::reindexed(p, t[id].parent->0)
    }
}

/// The table without `id` and everything below it; the folder that held it is
/// renumbered.
pub open spec fn deleted(t: Table, id: i64) -> Table {
    crate::table::reindexed(
        t.remove_keys(crate::table::subtree(t, id)),
        t[id].parent->0,
    )
}

/// The rows that a read shows.
pub open spec fn visible(t: Table, include_hidden: bool) -> Table {
    Map::new(
        |x: i64| t.dom().contains(x) && (include_hidden || !t[x].hidden),
        |x: i64| t[x],
    )
}

/// Why the tree cannot be read.
pub open spec fn tree_error(t: Table) -> Option<StoreErrorView> {
    match root_of(t) {
        None => Some(StoreErrorView::CorruptStore("root folder is missing"@)),
        Some(r) => if crate::walk::level_used(t, r, (MAX_DEPTH + 1) as nat) {
            Some(StoreErrorView::MaxDepthExceeded)
        } else {
            None
        },
    }
}

/// `a` is newer than `b`: created later, or at the same time with the higher id.
pub open spec fn newer(t: Table, a: i64, b: i64) -> bool {
    t[a].created > t[b].created || (t[a].created == t[b].created && a > b)
}

/// `s` lists exactly the ids of `want`, newest first.
pub open spec fn newest_first(t: Table, want: Set<i64>, s: Seq<i64>) -> bool {
    &&& forall|i: int, j: int|
        #![trigger s[i], s[j]]
        0 <= i < j < s.len() ==> newer(t, s[i], s[j])
    &&& forall|x: i64| s.contains(x) <==> want.contains(x)
}

/// The bookmarks of the table.
pub open spec fn bookmarks(t: Table) -> Set<i64> {
    Set::new(|x: i64| t.dom().contains(x) && t[x].kind == NodeKind::Bookmark)
}

/// The nodes, other than roots, whose title or URL holds `q`.
pub open spec fn found(t: Table, q: Seq<char>) -> Set<i64> {
    Set::new(
        |x: i64|
            {
                &&& t.dom().contains(x)
                &&& t[x].parent is Some
                &&& (crate::like::contains_text(t[x].title, q) || (t[x].url matches Some(u)
                    && crate::like::contains_text(u, q)))
            },
    )
}

/// The nodes show the listed ids, one by one, without children.
pub open spec fn shows_list(t: Table, ns: Seq<Node>, ids: Seq<i64>) -> bool {
    &&& ns.len() == ids.len()
    &&& forall|i: int|
        0 <= i < ns.len() ==> (#[trigger] ns[i]).id == ids[i] && crate::walk::shows_flat(t, ns[i])
}

/// `ns` is the page of the listed ids: as many from the front as fit.
pub open spec fn is_page(t: Table, ids: Seq<i64>, ns: Seq<Node>) -> bool {
    exists|all: Seq<Node>, m: nat|
        {
            &&& #[trigger] shows_list(t, all, ids)
            &&& #[trigger] crate::page::page_cut(all, m)
            &&& ns == all.take(m as int)
        }
}

/// A page size as asked for, between 1 and 1000.
pub open spec fn page_limit(limit: i64) -> int {
    if limit < 1 {
        1
    } else if limit > PAGE_LIMIT {
        PAGE_LIMIT as int
    } else {
        limit as int
    }
}

/// Where a page that starts at `offset` starts in a list of `n`.
pub open spec fn page_start(offset: i64, n: nat) -> int {
    if offset < 0 {
        0
    } else if offset > n {
        n as int
    } else {
        offset as int
    }
}

/// At most `limit` items of a list, from `offset` on.
pub open spec fn window(s: Seq<i64>, limit: i64, offset: i64) -> Seq<i64> {
    let from = page_start(offset, s.len());
    let to = if from + page_limit(limit) > s.len() {
        s.len() as int
    } else {
        from + page_limit(limit)
    };
    s.subrange(from, to)
}

} // verus!
