//! The bookmark store: the node table and the only place where its tree
//! invariants (no cycles, recursive delete, contiguous ordering) are enforced.

use vstd::prelude::*;
use crate::changes::RowChange;
use crate::error::{StoreError, StoreErrorView};
use crate::node::{Node, NodeKind, NodeRow, TableRow};
use crate::table::{Entry, Table, MAX_DEPTH};

verus! {

/// The most rows that a store holds.
pub const MAX_ROWS: u64 = 0x7fff_ffff_ffff_ffff;

/// Handle to the node table.
#[derive(Debug)]
pub struct Store {
    rows: Vec<TableRow>,
}

impl View for Store {
    type V = Table;

    closed spec fn view(&self) -> Table {
        crate::rows::table_of(self.rows@)
    }
}

/// Gives `id` another position.
fn set_position(rows: &mut Vec<TableRow>, id: i64, position: i64)
    requires
        crate::rows::rows_sorted(old(rows)@),
        crate::rows::table_of(old(rows)@).dom().contains(id),
    ensures
        crate::rows::rows_sorted(final(rows)@),
        final(rows)@.len() == old(rows)@.len(),
        crate::rows::table_of(final(rows)@) == crate::rows::table_of(old(rows)@).insert(
            id,
            Entry { position, ..crate::rows::table_of(old(rows)@)[id] },
        ),
{
    let i = crate::rows::row_place(rows, id);
    rows[i].row.position = position;
    proof {
        crate::rows::lemma_row_update(old(rows)@, i as int, rows@[i as int]);
        assert(rows@ =~= old(rows)@.update(i as int, rows@[i as int]));
    }
}

/// Numbers the listed ids from 0.
pub open spec fn numbered(t: Table, s: Seq<i64>) -> Table {
    Map::new(
        |x: i64| t.dom().contains(x),
        |x: i64|
            if s.contains(x) {
                Entry { position: s.index_of(x) as i64, ..t[x] }
            } else {
                t[x]
            },
    )
}

fn number_rows(rows: &mut Vec<TableRow>, ids: &Vec<i64>)
    requires
        crate::rows::rows_sorted(old(rows)@),
        ids@.no_duplicates(),
        ids@.len() <= MAX_ROWS,
        forall|k: int|
            0 <= k < ids@.len() ==> crate::rows::table_of(old(rows)@).dom().contains(
                #[trigger] ids@[k],
            ),
    ensures
        crate::rows::rows_sorted(final(rows)@),
        final(rows)@.len() == old(rows)@.len(),
        crate::rows::table_of(final(rows)@) == numbered(crate::rows::table_of(old(rows)@), ids@),
{
    let ghost t = crate::rows::table_of(rows@);
    let mut i: usize = 0;
    while i < ids.len()
        invariant
            crate::rows::rows_sorted(rows@),
            rows@.len() == old(rows)@.len(),
            ids@.no_duplicates(),
            ids@.len() <= MAX_ROWS,
            i <= ids@.len(),
            crate::rows::table_of(rows@).dom() == t.dom(),
            forall|k: int| 0 <= k < ids@.len() ==> t.dom().contains(#[trigger] ids@[k]),
            forall|k: int|
                0 <= k < ids@.len() ==> crate::rows::table_of(rows@)[#[trigger] ids@[k]] == (if k < i {
                    Entry { position: k as i64, ..t[ids@[k]] }
                } else {
                    t[ids@[k]]
                }),
            forall|x: i64|
                t.dom().contains(x) && !ids@.contains(x) ==> #[trigger] crate::rows::table_of(
                    rows@,
                )[x] == t[x],
        decreases ids@.len() - i,
    {
        let ghost before = crate::rows::table_of(rows@);
        set_position(rows, ids[i], i as i64);
        i = i + 1;
        assert(crate::rows::table_of(rows@).dom() =~= t.dom());
    }
    proof {
        let got = crate::rows::table_of(rows@);
        let want = numbered(t, ids@);
        assert forall|x: i64| t.dom().contains(x) implies got[x] == want[x] by {
            if ids@.contains(x) {
                let k = ids@.index_of(x);
                assert(ids@[k] == x);
            }
        }
        assert(got =~= want);
    }
}

/// Compacts the children of `p` to the positions 0, 1, .. in their order.
fn reindex(rows: &mut Vec<TableRow>, p: i64)
    requires
        crate::rows::rows_sorted(old(rows)@),
        old(rows)@.len() <= MAX_ROWS,
    ensures
        crate::rows::rows_sorted(final(rows)@),
        final(rows)@.len() == old(rows)@.len(),
        crate::rows::table_of(final(rows)@) == crate::table::reindexed(
            crate::rows::table_of(old(rows)@),
            p,
        ),
{
    let ghost t = crate::rows::table_of(rows@);
    let ids = crate::rows::ordered_kids(rows, Some(p));
    proof {
        crate::rows::lemma_rows(rows@);
        crate::table::lemma_order_len(t, Some(p), ids@);
        assert(crate::table::kids(t, Some(p)).subset_of(t.dom()));
        vstd::set_lib::lemma_len_subset(crate::table::kids(t, Some(p)), t.dom());
        assert forall|k: int| 0 <= k < ids@.len() implies t.dom().contains(#[trigger] ids@[k]) by {
            assert(ids@.contains(ids@[k]));
        }
    }
    number_rows(rows, &ids);
    proof {
        let got = numbered(t, ids@);
        let want = crate::table::reindexed(t, p);
        assert forall|x: i64| t.dom().contains(x) implies got[x] == want[x] by {
            if ids@.contains(x) {
                let k = ids@.index_of(x);
                crate::table::lemma_rank_is_index(t, Some(p), ids@, k);
            }
        }
        assert(got =~= want);
    }
}

/// Error unless `s` holds more than white space.
pub fn require_nonempty(s: &str, what: &str) -> (r: Result<(), StoreError>)
    ensures
        match r {
            Ok(_) => crate::ops::text_error(what@, s@) is None,
            Err(e) => crate::ops::text_error(what@, s@) == Some(e@),
        },
{
    if crate::text::is_blank(s) {
        Err(StoreError::InvalidArg(crate::error::joined(what, " must not be empty")))
    } else {
        Ok(())
    }
}

/// The first root in sibling order.
fn first_root(rows: &Vec<TableRow>) -> (r: Option<i64>)
    requires
        crate::rows::rows_sorted(rows@),
    ensures
        r == crate::ops::root_of(crate::rows::table_of(rows@)),
{
    let ghost t = crate::rows::table_of(rows@);
    let roots = crate::rows::ordered_kids(rows, None);
    if roots.len() == 0 {
        proof {
            if exists|r: i64| crate::ops::is_first_root(t, r) {
                let r = choose|r: i64| crate::ops::is_first_root(t, r);
                assert(roots@.contains(r));
            }
        }
        None
    } else {
        let first: i64 = roots[0];
        proof {
            assert(roots@.contains(first));
            assert forall|y: i64| #[trigger]
                crate::table::sits_under(t, None, y) && y != first implies crate::table::before(
                t,
                first,
                y,
            ) by {
                assert(roots@.contains(y));
                let k = choose|k: int| 0 <= k < roots@.len() && roots@[k] == y;
                assert(crate::table::before(t, roots@[0], roots@[k]));
            }
            assert(crate::ops::is_first_root(t, first));
            let r = choose|r: i64| crate::ops::is_first_root(t, r);
            if r != first {
                assert(crate::table::sits_under(t, None, r));
                assert(crate::table::sits_under(t, None, first));
            }
        }
        Some(first)
    }
}

/// Error unless `id` exists and is a folder.
fn ensure_folder(rows: &Vec<TableRow>, id: i64) -> (r: Result<(), StoreError>)
    requires
        crate::rows::rows_sorted(rows@),
    ensures
        match r {
            Ok(_) => crate::ops::folder_error(crate::rows::table_of(rows@), id) is None,
            Err(e) => crate::ops::folder_error(crate::rows::table_of(rows@), id) == Some(e@),
        },
{
    match crate::rows::find_row(rows, id) {
        Err(_) => Err(StoreError::NotFound(id)),
        Ok(i) => if rows[i].row.kind == NodeKind::Folder {
            Ok(())
        } else {
            Err(StoreError::NotAFolder(id))
        },
    }
}

/// The folder that is meant: the one named, else the root. Error unless it exists
/// and is a folder.
fn resolve_folder(rows: &Vec<TableRow>, parent: Option<i64>) -> (r: Result<i64, StoreError>)
    requires
        crate::rows::rows_sorted(rows@),
    ensures
        match r {
            Ok(p) => {
                &&& crate::ops::target_error(crate::rows::table_of(rows@), parent) is None
                &&& crate::ops::target(crate::rows::table_of(rows@), parent) == Some(p)
            },
            Err(e) => crate::ops::target_error(crate::rows::table_of(rows@), parent) == Some(e@),
        },
{
    let p: i64 = match parent {
        Some(p) => p,
        None => match first_root(rows) {
            Some(r) => r,
            None => {
                return Err(StoreError::Sqlite("Query returned no rows".to_owned()));
            },
        },
    };
    match ensure_folder(rows, p) {
        Ok(_) => Ok(p),
        Err(e) => Err(e),
    }
}

/// Next position at the end of `p`'s children.
fn next_position(rows: &Vec<TableRow>, p: i64) -> (r: Result<i64, StoreError>)
    requires
        crate::rows::rows_sorted(rows@),
    ensures
        match r {
            Ok(n) => {
                &&& !crate::ops::positions_exhausted(crate::rows::table_of(rows@), p)
                &&& n == crate::ops::next_position(crate::rows::table_of(rows@), p)
                &&& crate::ops::is_next_position(crate::rows::table_of(rows@), p, n)
            },
            Err(e) => {
                &&& crate::ops::positions_exhausted(crate::rows::table_of(rows@), p)
                &&& e@ == crate::ops::position_error()
            },
        },
{
    let ghost t = crate::rows::table_of(rows@);
    let kids = crate::rows::ordered_kids(rows, Some(p));
    if kids.len() == 0 {
        proof {
            assert forall|x: i64| !crate::table::sits_under(t, Some(p), x) by {
                assert(!kids@.contains(x));
            }
            assert(crate::ops::is_next_position(t, p, 0));
            crate::ops::lemma_next_position(t, p, 0);
        }
        return Ok(0);
    }
    let last: i64 = kids[kids.len() - 1];
    proof {
        assert(kids@.contains(last));
    }
    let at = crate::rows::row_place(rows, last);
    let top: i64 = rows[at].row.position;
    proof {
        assert forall|x: i64| #[trigger] crate::table::sits_under(t, Some(p), x) implies t[x].position
            <= top by {
            assert(kids@.contains(x));
            let k = choose|k: int| 0 <= k < kids@.len() && kids@[k] == x;
            if k < kids@.len() - 1 {
                assert(crate::table::before(t, kids@[k], kids@[kids@.len() - 1]));
            }
        }
        assert(crate::table::sits_under(t, Some(p), last));
    }
    if top == i64::MAX {
        Err(
            StoreError::Sqlite(
                "Invalid column type Real at index: 0, name: COALESCE(MAX(position) + 1, 0)".to_owned(),
            ),
        )
    } else {
        proof {
            assert(crate::ops::is_next_position(t, p, (top + 1) as i64));
            crate::ops::lemma_next_position(t, p, (top + 1) as i64);
        }
        Ok(top + 1)
    }
}

/// The lowest positive id that is free.
fn lowest_free_id(rows: &Vec<TableRow>) -> (id: i64)
    requires
        crate::rows::rows_sorted(rows@),
        rows@.len() < MAX_ROWS,
    ensures
        id >= 1,
        !crate::rows::table_of(rows@).dom().contains(id),
{
    let ghost t = crate::rows::table_of(rows@);
    let mut id: i64 = 1;
    loop
        invariant
            crate::rows::rows_sorted(rows@),
            rows@.len() < MAX_ROWS,
            t == crate::rows::table_of(rows@),
            1 <= id,
            forall|x: i64| 1 <= x < id ==> t.dom().contains(x),
        decreases i64::MAX - id,
    {
        match crate::rows::find_row(rows, id) {
            Err(_) => {
                return id;
            },
            Ok(_) => {
                proof {
                    crate::rows::lemma_rows(rows@);
                    lemma_ids_fill(t, id);
                }
                id = id + 1;
            },
        }
    }
}

proof fn lemma_ids_fill(t: Table, n: i64)
    requires
        t.dom().finite(),
        1 <= n,
        forall|x: i64| 1 <= x <= n ==> t.dom().contains(x),
    ensures
        n <= t.dom().len(),
{
    let s = Seq::new(n as nat, |i: int| (i + 1) as i64);
    assert(s.no_duplicates());
    s.unique_seq_to_set();
    assert(s.to_set().subset_of(t.dom())) by {
        assert forall|x: i64| s.to_set().contains(x) implies t.dom().contains(x) by {
            let i = choose|i: int| 0 <= i < s.len() && s[i] == x;
            assert(s[i] == (i + 1) as i64);
        }
    }
    vstd::set_lib::lemma_len_subset(s.to_set(), t.dom());
}

/// The id that a new row gets, and where it is inserted.
fn next_id(rows: &Vec<TableRow>) -> (r: (i64, usize))
    requires
        crate::rows::rows_sorted(rows@),
        rows@.len() < MAX_ROWS,
    ensures
        crate::ops::is_new_id(crate::rows::table_of(rows@), r.0),
        r.1 <= rows@.len(),
        forall|k: int| 0 <= k < r.1 ==> (#[trigger] rows@[k]).row.id < r.0,
        forall|k: int| r.1 <= k < rows@.len() ==> r.0 < (#[trigger] rows@[k]).row.id,
{
    let ghost t = crate::rows::table_of(rows@);
    proof {
        crate::rows::lemma_rows(rows@);
    }
    if rows.len() == 0 {
        return (1, 0);
    }
    let top: i64 = rows[rows.len() - 1].row.id;
    proof {
        crate::rows::lemma_row(rows@, rows@.len() - 1);
        assert forall|x: i64| t.dom().contains(x) implies x <= top by {
            let k = crate::rows::row_index(rows@, x);
            if k < rows@.len() - 1 {
                assert(rows@[k].row.id < rows@[rows@.len() - 1].row.id);
            }
        }
    }
    if top < i64::MAX {
        assert forall|k: int| 0 <= k < rows@.len() implies (#[trigger] rows@[k]).row.id < top + 1 by {
            assert(t.dom().contains(rows@[k].row.id));
        }
        (top + 1, rows.len())
    } else {
        let id: i64 = lowest_free_id(rows);
        match crate::rows::find_row(rows, id) {
            Err(i) => (id, i),
            Ok(i) => (id, i),
        }
    }
}

/// Adds a row under a new id.
fn insert_new(
    rows: &mut Vec<TableRow>,
    parent: Option<i64>,
    kind: NodeKind,
    title: String,
    url: Option<String>,
    position: i64,
    now: i64,
) -> (id: i64)
    requires
        crate::rows::rows_sorted(old(rows)@),
        old(rows)@.len() < MAX_ROWS,
    ensures
        crate::rows::rows_sorted(final(rows)@),
        final(rows)@.len() == old(rows)@.len() + 1,
        crate::ops::is_new_id(crate::rows::table_of(old(rows)@), id),
        crate::rows::table_of(final(rows)@) == crate::rows::table_of(old(rows)@).insert(
            id,
            Entry {
                parent,
                kind,
                title: title@,
                url: crate::node::opt_text(url),
                position,
                created: now,
                modified: now,
                hidden: false,
            },
        ),
{
    let (id, at) = next_id(rows);
    let row = TableRow {
        row: NodeRow {
            id,
            parent_id: parent,
            kind,
            title,
            url,
            position,
            created: now,
            modified: now,
        },
        hidden: false,
    };
    proof {
        crate::rows::lemma_row_insert(rows@, at as int, row);
    }
    rows.insert(at, row);
    id
}

/// Whether a new node under `p` would be too deep.
fn too_deep_under(rows: &Vec<TableRow>, p: i64) -> (r: bool)
    requires
        crate::rows::rows_sorted(rows@),
    ensures
        r == (crate::table::up(crate::rows::table_of(rows@), p, MAX_DEPTH as nat) is Some),
{
    let ghost t = crate::rows::table_of(rows@);
    match crate::walk::depth_of(rows, p) {
        Ok(d) => {
            proof {
                if d < MAX_DEPTH {
                    crate::table::lemma_up_ends(t, p, (d + 1) as nat, MAX_DEPTH as nat);
                } else if crate::table::up(t, p, MAX_DEPTH as nat) is None {
                    crate::table::lemma_up_ends(t, p, MAX_DEPTH as nat, d as nat);
                }
            }
            d + 1 > MAX_DEPTH
        },
        Err(_) => {
            proof {
                if crate::table::up(t, p, MAX_DEPTH as nat) is None {
                    crate::table::lemma_up_ends(
                        t,
                        p,
                        MAX_DEPTH as nat,
                        crate::walk::DEPTH_GUARD as nat,
                    );
                }
            }
            true
        },
    }
}

/// Whether moving `id` under `under` would close a circle.
fn would_cycle(rows: &Vec<TableRow>, id: i64, under: i64) -> (r: bool)
    requires
        crate::rows::rows_sorted(rows@),
    ensures
        r == crate::ops::cyclic(crate::rows::table_of(rows@), id, under),
{
    match crate::walk::is_descendant(rows, id, under) {
        Ok(b) => b,
        Err(_) => true,
    }
}

/// Whether `id`'s subtree would be too deep under `under`.
fn would_be_too_deep(rows: &Vec<TableRow>, id: i64, under: i64) -> (r: bool)
    requires
        crate::rows::rows_sorted(rows@),
    ensures
        r == crate::ops::too_deep(crate::rows::table_of(rows@), id, under),
{
    let ghost t = crate::rows::table_of(rows@);
    proof {
        assert(crate::table::up(t, under, 0) == Some(under));
        assert(crate::table::up(t, id, 0) == Some(id));
        assert(crate::walk::level_used(t, id, 0));
    }
    let depth: i64 = match crate::walk::depth_of(rows, under) {
        Ok(d) => d,
        Err(_) => {
            assert(crate::ops::too_deep(t, id, under)) by {
                assert(crate::table::up(t, under, crate::walk::DEPTH_GUARD as nat) is Some);
                assert(crate::walk::level_used(t, id, 0));
            }
            return true;
        },
    };
    let height: i64 = match crate::walk::subtree_height(rows, id) {
        Ok(h) => h,
        Err(_) => {
            assert(crate::ops::too_deep(t, id, under)) by {
                assert(crate::table::up(t, under, 0) is Some);
                assert(crate::walk::level_used(t, id, (crate::walk::DEPTH_GUARD + 1) as nat));
            }
            return true;
        },
    };
    proof {
        assert(crate::table::up(t, under, depth as nat) is Some);
        assert(crate::walk::level_used(t, id, height as nat));
        if crate::ops::too_deep(t, id, under) {
            let (d, h) = choose|d: nat, h: nat|
                {
                    &&& #[trigger] crate::table::up(t, under, d) is Some
                    &&& #[trigger] crate::walk::level_used(t, id, h)
                    &&& d + 1 + h > MAX_DEPTH
                };
            if d > depth {
                crate::table::lemma_up_ends(t, under, (depth + 1) as nat, d);
            }
            if h > height {
                crate::walk::lemma_levels_closed(t, id, (height + 1) as nat, h);
            }
        }
    }
    depth + 1 + height > MAX_DEPTH
}

/// The children of `under` other than `id`, in sibling order.
fn other_kids(rows: &Vec<TableRow>, under: i64, id: i64) -> (r: Vec<i64>)
    requires
        crate::rows::rows_sorted(rows@),
    ensures
        crate::table::in_order(crate::rows::table_of(rows@).remove(id), Some(under), r@),
{
    let ghost t = crate::rows::table_of(rows@);
    let ghost rest = t.remove(id);
    let kids = crate::rows::ordered_kids(rows, Some(under));
    let mut r: Vec<i64> = Vec::new();
    let mut i: usize = 0;
    while i < kids.len()
        invariant
            t == crate::rows::table_of(rows@),
            rest == t.remove(id),
            crate::table::in_order(t, Some(under), kids@),
            i <= kids@.len(),
            !r@.contains(id),
            forall|a: int, b: int|
                #![trigger r@[a], r@[b]]
                0 <= a < b < r@.len() ==> crate::table::before(t, r@[a], r@[b]),
            forall|a: int, b: int|
                #![trigger r@[a], kids@[b]]
                0 <= a < r@.len() && i <= b < kids@.len() ==> crate::table::before(t, r@[a], kids@[b]),
            forall|k: int| 0 <= k < i && kids@[k] != id ==> r@.contains(#[trigger] kids@[k]),
            forall|a: int| 0 <= a < r@.len() ==> kids@.contains(#[trigger] r@[a]),
        decreases kids@.len() - i,
    {
        let kid: i64 = kids[i];
        if kid != id {
            let ghost s = r@;
            r.push(kid);
            proof {
                assert(r@[s.len() as int] == kid);
                assert forall|k: int| 0 <= k < i + 1 && kids@[k] != id implies r@.contains(
                    #[trigger] kids@[k],
                ) by {
                    if k < i {
                        let m = choose|m: int| 0 <= m < s.len() && s[m] == kids@[k];
                        assert(r@[m] == kids@[k]);
                    }
                }
                assert(!r@.contains(id)) by {
                    if r@.contains(id) {
                        let m = choose|m: int| 0 <= m < r@.len() && r@[m] == id;
                        assert(s[m] == id);
                        assert(s.contains(id));
                    }
                }
            }
        }
        i = i + 1;
    }
    proof {
        let s = r@;
        assert forall|a: int, b: int|
            #![trigger s[a], s[b]]
            0 <= a < b < s.len() implies crate::table::before(rest, s[a], s[b]) by {
            assert(s.contains(s[a]) && s.contains(s[b]));
            assert(crate::table::before(t, s[a], s[b]));
        }
        assert forall|x: i64| s.contains(x) <==> crate::table::sits_under(rest, Some(under), x) by {
            if s.contains(x) {
                let a = choose|a: int| 0 <= a < s.len() && s[a] == x;
                assert(kids@.contains(s[a]));
            }
            if crate::table::sits_under(rest, Some(under), x) {
                assert(crate::table::sits_under(t, Some(under), x));
                assert(kids@.contains(x));
                let k = choose|k: int| 0 <= k < kids@.len() && kids@[k] == x;
                assert(s.contains(kids@[k]));
            }
        }
    }
    r
}

/// Renumbering with `id` inserted at `index` is what [`crate::ops::placed`] says.
proof fn lemma_placed(t: Table, id: i64, under: i64, sibs: Seq<i64>, index: int, now: i64)
    requires
        t.dom().contains(id),
        crate::table::in_order(t.remove(id), Some(under), sibs),
        0 <= index <= sibs.len(),
        sibs.len() < MAX_ROWS,
    ensures
        sibs.insert(index, id).no_duplicates(),
        numbered(
            t.insert(id, Entry { parent: Some(under), modified: now, ..t[id] }),
            sibs.insert(index, id),
        ) == crate::ops::placed(t, id, under, index, now),
{
    let rest = t.remove(id);
    let all = sibs.insert(index, id);
    let t1 = t.insert(id, Entry { parent: Some(under), modified: now, ..t[id] });
    crate::table::lemma_order_len(rest, Some(under), sibs);
    assert(!sibs.contains(id)) by {
        assert(!crate::table::sits_under(rest, Some(under), id));
    }
    assert forall|k: int| 0 <= k < all.len() implies #[trigger] all[k] == (if k < index {
        sibs[k]
    } else if k == index {
        id
    } else {
        sibs[k - 1]
    }) by {}
    assert(all.no_duplicates()) by {
        assert forall|a: int, b: int| 0 <= a < all.len() && 0 <= b < all.len() && a != b implies all[a]
            != all[b] by {
            let x = if a < index { a } else { a - 1 };
            let y = if b < index { b } else { b - 1 };
            if a == index {
                assert(sibs.contains(sibs[y]));
            } else if b == index {
                assert(sibs.contains(sibs[x]));
            } else {
                assert(sibs[x] != sibs[y]);
            }
        }
    }
    let got = numbered(t1, all);
    let want = crate::ops::placed(t, id, under, index, now);
    assert forall|x: i64| t.dom().contains(x) implies #[trigger] got[x] == want[x] by {
        if x == id {
            assert(all[index] == id);
            assert(all.contains(id));
            let k = all.index_of(id);
            assert(all[k] == id);
            assert(k == index);
        } else if crate::table::sits_under(t, Some(under), x) {
            assert(crate::table::sits_under(rest, Some(under), x));
            assert(sibs.contains(x));
            let j = choose|j: int| 0 <= j < sibs.len() && sibs[j] == x;
            crate::table::lemma_rank_is_index(rest, Some(under), sibs, j);
            let m = if j < index { j } else { j + 1 };
            assert(all[m] == x);
            assert(all.contains(x));
            let k = all.index_of(x);
            assert(all[k] == x);
            assert(k == m);
        } else {
            if all.contains(x) {
                let k = choose|k: int| 0 <= k < all.len() && all[k] == x;
                let y = if k < index { k } else { k - 1 };
                assert(sibs[y] == x);
                assert(sibs.contains(x));
                assert(crate::table::sits_under(rest, Some(under), x));
            }
        }
    }
    assert(got =~= want);
}

/// The rows whose id is not listed.
fn rows_without(rows: &Vec<TableRow>, ids: &Vec<i64>) -> (r: Vec<TableRow>)
    requires
        crate::rows::rows_sorted(rows@),
        forall|k: int|
            0 <= k < ids@.len() ==> crate::rows::table_of(rows@).dom().contains(
                #[trigger] ids@[k],
            ),
    ensures
        crate::rows::rows_sorted(r@),
        r@.len() <= rows@.len(),
        crate::rows::table_of(r@) == crate::rows::table_of(rows@).remove_keys(ids@.to_set()),
{
    let mut keep: Vec<bool> = Vec::new();
    let mut i: usize = 0;
    while i < rows.len()
        invariant
            i <= rows@.len(),
            keep@.len() == i,
            forall|k: int| 0 <= k < i ==> #[trigger] keep@[k],
        decreases rows@.len() - i,
    {
        keep.push(true);
        i = i + 1;
    }
    let mut j: usize = 0;
    while j < ids.len()
        invariant
            crate::rows::rows_sorted(rows@),
            forall|k: int|
                0 <= k < ids@.len() ==> crate::rows::table_of(rows@).dom().contains(
                    #[trigger] ids@[k],
                ),
            j <= ids@.len(),
            keep@.len() == rows@.len(),
            forall|k: int|
                0 <= k < rows@.len() ==> #[trigger] keep@[k] == !ids@.take(j as int).contains(
                    rows@[k].row.id,
                ),
        decreases ids@.len() - j,
    {
        let id: i64 = ids[j];
        let at = crate::rows::row_place(rows, id);
        let ghost before = keep@;
        keep.set(at, false);
        j = j + 1;
        proof {
            let s = ids@.take(j - 1);
            assert(ids@.take(j as int) =~= s.push(id));
            assert forall|k: int| 0 <= k < rows@.len() implies #[trigger] keep@[k] == !ids@.take(
                j as int,
            ).contains(rows@[k].row.id) by {
                assert(before[k] == !s.contains(rows@[k].row.id));
                crate::walk::lemma_push_contains(s, id);
                if k < at {
                    assert(rows@[k].row.id < rows@[at as int].row.id);
                } else if k > at {
                    assert(rows@[at as int].row.id < rows@[k].row.id);
                }
            }
        }
    }
    proof {
        assert(ids@.take(ids@.len() as int) =~= ids@);
        crate::rows::lemma_rows(rows@);
        let t = crate::rows::table_of(rows@);
        assert forall|x: i64| t.dom().contains(x) implies keep@[crate::rows::row_index(rows@, x)]
            == !ids@.to_set().contains(x) by {
            assert(ids@.to_set().contains(x) == ids@.contains(x));
        }
        assert(crate::rows::kept(rows@, keep@) =~= t.remove_keys(ids@.to_set()));
    }
    crate::rows::keep_rows(rows, &keep)
}

impl Clone for Store {
    fn clone(&self) -> (r: Self)
        ensures
            self.wf() ==> r.wf() && r@ == self@,
    {
        let mut rows: Vec<TableRow> = Vec::new();
        let mut i: usize = 0;
        while i < self.rows.len()
            invariant
                i <= self.rows@.len(),
                rows@.len() == i,
                forall|k: int|
                    0 <= k < i ==> (#[trigger] rows@[k]).row.id == self.rows@[k].row.id
                        && crate::rows::entry_of(rows@[k]) == crate::rows::entry_of(self.rows@[k]),
            decreases self.rows@.len() - i,
        {
            let row = self.rows[i].clone();
            proof {
                assert(row.row@.id == self.rows@[i as int].row@.id);
            }
            rows.push(row);
            i = i + 1;
        }
        proof {
            if self.wf() {
                crate::rows::lemma_same_rows(rows@, self.rows@);
            }
        }
        Store { rows }
    }
}

impl Store {
    /// The rows rise by id, and there are not too many of them.
    pub closed spec fn wf(&self) -> bool {
        crate::rows::rows_sorted(self.rows@) && self.rows@.len() <= MAX_ROWS
    }

    /// The table of a store is finite.
    pub proof fn lemma_finite(&self)
        requires
            self.wf(),
        ensures
            self@.dom().finite(),
            self@.dom().len() <= MAX_ROWS,
    {
        crate::rows::lemma_rows(self.rows@);
    }

    /// Adds a node at the end of a folder's children.
    fn add_node(
        &mut self,
        parent: Option<i64>,
        kind: NodeKind,
        title: &str,
        url: Option<String>,
        now: i64,
    ) -> (r: Result<i64, StoreError>)
        requires
            old(self).wf(),
        ensures
            final(self).wf(),
            match r {
                Ok(id) => {
                    &&& crate::ops::place_error(old(self)@, parent) is None
                    &&& crate::ops::is_new_id(old(self)@, id)
                    &&& final(self)@ == crate::ops::with_new(
                        old(self)@,
                        parent,
                        id,
                        kind,
                        title@,
                        crate::node::opt_text(url),
                        now,
                    )
                },
                Err(e) => {
                    &&& crate::ops::place_error(old(self)@, parent) == Some(e@)
                    &&& final(self)@ == old(self)@
                },
            },
    {
        let p: i64 = match resolve_folder(&self.rows, parent) {
            Ok(p) => p,
            Err(e) => {
                return Err(e);
            },
        };
        if too_deep_under(&self.rows, p) {
            return Err(StoreError::MaxDepthExceeded);
        }
        let position: i64 = match next_position(&self.rows, p) {
            Ok(n) => n,
            Err(e) => {
                return Err(e);
            },
        };
        proof {
            crate::rows::lemma_rows(self.rows@);
        }
        if self.rows.len() as u64 >= MAX_ROWS {
            return Err(StoreError::Sqlite("database or disk is full".to_owned()));
        }
        let id: i64 = insert_new(
            &mut self.rows,
            Some(p),
            kind,
            title.to_owned(),
            url,
            position,
            now,
        );
        Ok(id)
    }

    /// Creates a folder under `parent_id` (default: root). Returns the new id.
    pub fn create_folder(&mut self, parent_id: Option<i64>, title: &str, now: i64) -> (r: Result<
        i64,
        StoreError,
    >)
        requires
            old(self).wf(),
        ensures
            final(self).wf(),
            match r {
                Ok(id) => {
                    &&& crate::ops::create_folder_error(old(self)@, parent_id, title@) is None
                    &&& crate::ops::is_new_id(old(self)@, id)
                    &&& final(self)@ == crate::ops::with_new(
                        old(self)@,
                        parent_id,
                        id,
                        NodeKind::Folder,
                        title@,
                        None,
                        now,
                    )
                },
                Err(e) => {
                    &&& crate::ops::create_folder_error(old(self)@, parent_id, title@) == Some(e@)
                    &&& final(self)@ == old(self)@
                },
            },
    {
        match require_nonempty(title, "title") {
            Err(e) => Err(e),
            Ok(_) => self.add_node(parent_id, NodeKind::Folder, title, None, now),
        }
    }

    /// Creates a bookmark under `parent_id` (default: root). Returns the new id.
    pub fn create_bookmark(
        &mut self,
        parent_id: Option<i64>,
        title: &str,
        url: &str,
        now: i64,
    ) -> (r: Result<i64, StoreError>)
        requires
            old(self).wf(),
        ensures
            final(self).wf(),
            match r {
                Ok(id) => {
                    &&& crate::ops::create_bookmark_error(
                        old(self)@,
                        parent_id,
                        title@,
                        url@,
                    ) is None
                    &&& crate::ops::is_new_id(old(self)@, id)
                    &&& final(self)@ == crate::ops::with_new(
                        old(self)@,
                        parent_id,
                        id,
                        NodeKind::Bookmark,
                        title@,
                        Some(url@),
                        now,
                    )
                },
                Err(e) => {
                    &&& crate::ops::create_bookmark_error(old(self)@, parent_id, title@, url@)
                        == Some(e@)
                    &&& final(self)@ == old(self)@
                },
            },
    {
        match require_nonempty(title, "title") {
            Err(e) => {
                return Err(e);
            },
            Ok(_) => {},
        }
        match require_nonempty(url, "url") {
            Err(e) => Err(e),
            Ok(_) => self.add_node(
                parent_id,
                NodeKind::Bookmark,
                title,
                Some(url.to_owned()),
                now,
            ),
        }
    }

    /// Renames any node (not the root).
    pub fn rename(&mut self, id: i64, title: &str, now: i64) -> (r: Result<(), StoreError>)
        requires
            old(self).wf(),
        ensures
            final(self).wf(),
            match r {
                Ok(_) => {
                    &&& crate::ops::rename_error(old(self)@, id, title@) is None
                    &&& final(self)@ == crate::ops::renamed(old(self)@, id, title@, now)
                },
                Err(e) => {
                    &&& crate::ops::rename_error(old(self)@, id, title@) == Some(e@)
                    &&& final(self)@ == old(self)@
                },
            },
    {
        match require_nonempty(title, "title") {
            Err(e) => {
                return Err(e);
            },
            Ok(_) => {},
        }
        let i: usize = match crate::rows::find_row(&self.rows, id) {
            Err(_) => {
                return Err(StoreError::NotFound(id));
            },
            Ok(i) => i,
        };
        if self.rows[i].row.parent_id.is_none() {
            return Err(StoreError::CannotModifyRoot);
        }
        self.rows[i].row.title = title.to_owned();
        self.rows[i].row.modified = now;
        proof {
            crate::rows::lemma_row_update(old(self).rows@, i as int, self.rows@[i as int]);
            assert(self.rows@ =~= old(self).rows@.update(i as int, self.rows@[i as int]));
        }
        Ok(())
    }

    /// Moves `id` under `new_parent_id`, at `position` among the children there
    /// (default: at the end; out of range: at the nearer end). The node is taken
    /// out of its folder before the position is counted.
    pub fn move_node(
        &mut self,
        id: i64,
        new_parent_id: i64,
        position: Option<i64>,
        now: i64,
    ) -> (r: Result<(), StoreError>)
        requires
            old(self).wf(),
        ensures
            final(self).wf(),
            match r {
                Ok(_) => {
                    &&& crate::ops::move_error(old(self)@, id, new_parent_id) is None
                    &&& final(self)@ == crate::ops::moved(
                        old(self)@,
                        id,
                        new_parent_id,
                        position,
                        now,
                    )
                },
                Err(e) => {
                    &&& crate::ops::move_error(old(self)@, id, new_parent_id) == Some(e@)
                    &&& final(self)@ == old(self)@
                },
            },
    {
        let ghost t = self@;
        let at: usize = match crate::rows::find_row(&self.rows, id) {
            Err(_) => {
                return Err(StoreError::NotFound(id));
            },
            Ok(i) => i,
        };
        let old_parent: i64 = match self.rows[at].row.parent_id {
            None => {
                return Err(StoreError::CannotModifyRoot);
            },
            Some(p) => p,
        };
        match ensure_folder(&self.rows, new_parent_id) {
            Err(e) => {
                return Err(e);
            },
            Ok(_) => {},
        }
        if would_cycle(&self.rows, id, new_parent_id) {
            return Err(StoreError::CycleDetected);
        }
        if would_be_too_deep(&self.rows, id, new_parent_id) {
            return Err(StoreError::MaxDepthExceeded);
        }
        let mut siblings = other_kids(&self.rows, new_parent_id, id);
        let ghost sibs = siblings@;
        let count: usize = siblings.len();
        proof {
            crate::rows::lemma_rows(self.rows@);
            let rest = t.remove(id);
            crate::table::lemma_order_len(rest, Some(new_parent_id), sibs);
            let kids = crate::table::kids(rest, Some(new_parent_id));
            assert(kids.subset_of(rest.dom()));
            vstd::set_lib::lemma_len_subset(kids, rest.dom());
            assert(rest.dom() =~= t.dom().remove(id));
            assert(rest.dom().len() == t.dom().len() - 1);
        }
        let index: usize = match position {
            None => count,
            Some(i) => if i < 0 {
                0
            } else if i as u64 > count as u64 {
                count
            } else {
                i as usize
            },
        };
        siblings.insert(index, id);
        self.rows[at].row.parent_id = Some(new_parent_id);
        self.rows[at].row.modified = now;
        proof {
            crate::rows::lemma_row_update(old(self).rows@, at as int, self.rows@[at as int]);
            assert(self.rows@ =~= old(self).rows@.update(at as int, self.rows@[at as int]));
            lemma_placed(t, id, new_parent_id, sibs, index as int, now);
            let t1 = crate::rows::table_of(self.rows@);
            assert(t1 == t.insert(id, Entry { parent: Some(new_parent_id), modified: now, ..t[id] }));
            assert forall|k: int| 0 <= k < siblings@.len() implies t1.dom().contains(
                #[trigger] siblings@[k],
            ) by {
                if k < index {
                    assert(sibs.contains(sibs[k]));
                } else if k > index {
                    assert(sibs.contains(sibs[k - 1]));
                }
            }
        }
        number_rows(&mut self.rows, &siblings);
        if old_parent != new_parent_id {
            reindex(&mut self.rows, old_parent);
        }
        Ok(())
    }

    /// Deletes a node and everything below it. Returns the number of nodes
    /// removed. Rejects deleting the root.
    pub fn delete(&mut self, id: i64) -> (r: Result<u64, StoreError>)
        requires
            old(self).wf(),
        ensures
            final(self).wf(),
            match r {
                Ok(n) => {
                    &&& crate::ops::node_error(old(self)@, id) is None
                    &&& n == crate::table::subtree(old(self)@, id).len()
                    &&& final(self)@ == crate::ops::deleted(old(self)@, id)
                },
                Err(e) => {
                    &&& crate::ops::node_error(old(self)@, id) == Some(e@)
                    &&& final(self)@ == old(self)@
                },
            },
    {
        let ghost t = self@;
        let at: usize = match crate::rows::find_row(&self.rows, id) {
            Err(_) => {
                return Err(StoreError::NotFound(id));
            },
            Ok(i) => i,
        };
        let parent: i64 = match self.rows[at].row.parent_id {
            None => {
                return Err(StoreError::CannotModifyRoot);
            },
            Some(p) => p,
        };
        let ids = crate::walk::collect_subtree_ids(&self.rows, id);
        proof {
            assert forall|k: int| 0 <= k < ids@.len() implies t.dom().contains(#[trigger] ids@[k]) by {
                assert(ids@.contains(ids@[k]));
            }
        }
        self.rows = rows_without(&self.rows, &ids);
        proof {
            assert(crate::rows::table_of(self.rows@) =~= t.remove_keys(
                crate::table::subtree(t, id),
            ));
        }
        reindex(&mut self.rows, parent);
        Ok(ids.len() as u64)
    }

    /// The full nested tree at the root folder. Unless `include_hidden`, hidden
    /// nodes and what is only reachable through them are left out.
    pub fn tree(&self, include_hidden: bool) -> (r: Result<Node, StoreError>)
        requires
            self.wf(),
        ensures
            ({
                let t = crate::ops::visible(self@, include_hidden);
                match r {
                    Ok(n) => {
                        &&& crate::ops::tree_error(t) is None
                        &&& crate::ops::root_of(t) == Some(n.id)
                        &&& crate::walk::shows_tree(t, n)
                    },
                    Err(e) => crate::ops::tree_error(t) == Some(e@),
                }
            }),
    {
        let rows = crate::reads::visible_rows(&self.rows, include_hidden);
        match first_root(&rows) {
            None => Err(StoreError::CorruptStore("root folder is missing")),
            Some(root) => match crate::walk::check_depth(&rows, root) {
                Err(e) => Err(e),
                Ok(_) => Ok(crate::walk::assemble(&rows, root)),
            },
        }
    }

    /// Flat list of all bookmarks, newest first.
    pub fn list(&self) -> (r: Result<Vec<Node>, StoreError>)
        requires
            self.wf(),
        ensures
            r matches Ok(v) && exists|s: Seq<i64>| #[trigger]
                crate::ops::newest_first(self@, crate::ops::bookmarks(self@), s)
                    && crate::ops::shows_list(self@, v@, s),
    {
        let marks = crate::reads::bookmark_marks(&self.rows);
        let ids = crate::reads::newest_ids(&self.rows, &marks);
        proof {
            assert forall|k: int| 0 <= k < ids@.len() implies self@.dom().contains(
                #[trigger] ids@[k],
            ) by {
                assert(ids@.contains(ids@[k]));
            }
            assert(ids@.subrange(0, ids@.len() as int) =~= ids@);
        }
        let v = crate::reads::flat_nodes(&self.rows, &ids, 0, ids.len());
        assert(crate::ops::newest_first(self@, crate::ops::bookmarks(self@), ids@));
        Ok(v)
    }

    /// One page of a folder's direct children (default: the root's) in sibling
    /// order, and how many children there are. The page is bounded by `limit` and
    /// by the bytes its nodes take on the wire.
    pub fn children(&self, parent_id: Option<i64>, limit: i64, offset: i64) -> (r: Result<
        (Vec<Node>, i64),
        StoreError,
    >)
        requires
            self.wf(),
        ensures
            match r {
                Ok((page, total)) => {
                    let p = crate::ops::target(self@, parent_id)->0;
                    &&& crate::ops::target_error(self@, parent_id) is None
                    &&& total == crate::table::kids(self@, Some(p)).len()
                    &&& exists|s: Seq<i64>| #[trigger]
                        crate::table::in_order(self@, Some(p), s) && crate::ops::is_page(
                            self@,
                            crate::ops::window(s, limit, offset),
                            page@,
                        )
                },
                Err(e) => crate::ops::target_error(self@, parent_id) == Some(e@),
            },
    {
        let p: i64 = match resolve_folder(&self.rows, parent_id) {
            Ok(p) => p,
            Err(e) => {
                return Err(e);
            },
        };
        let ids = crate::rows::ordered_kids(&self.rows, Some(p));
        proof {
            crate::rows::lemma_rows(self.rows@);
            crate::table::lemma_order_len(self@, Some(p), ids@);
            let kids = crate::table::kids(self@, Some(p));
            assert(kids.subset_of(self@.dom()));
            vstd::set_lib::lemma_len_subset(kids, self@.dom());
            assert forall|k: int| 0 <= k < ids@.len() implies self@.dom().contains(
                #[trigger] ids@[k],
            ) by {
                assert(ids@.contains(ids@[k]));
            }
        }
        let page = crate::reads::page_at(&self.rows, &ids, limit, offset);
        assert(crate::table::in_order(self@, Some(p), ids@));
        Ok((page, ids.len() as i64))
    }

    /// Flat search in titles and URLs, newest first: the query without white space
    /// at its ends, as a literal substring, letters in either case. Roots are left
    /// out; the result is bounded like a page.
    pub fn search(&self, query: &str, limit: i64) -> (r: Result<Vec<Node>, StoreError>)
        requires
            self.wf(),
        ensures
            r matches Ok(v) && ({
                let q = crate::text::trimmed(query@);
                if q.len() == 0 {
                    v@.len() == 0
                } else {
                    exists|s: Seq<i64>| #[trigger]
                        crate::ops::newest_first(self@, crate::ops::found(self@, q), s)
                            && crate::ops::is_page(self@, crate::ops::window(s, limit, 0), v@)
                }
            }),
    {
        let q = crate::text::trim(query);
        if q.len() == 0 {
            return Ok(Vec::new());
        }
        let n: usize = q.len();
        assert(q@.subrange(0, n as int) =~= q@);
        let q = crate::text::string_of(&q, 0, n);
        let marks = crate::reads::found_marks(&self.rows, q.as_str());
        let ids = crate::reads::newest_ids(&self.rows, &marks);
        proof {
            assert forall|k: int| 0 <= k < ids@.len() implies self@.dom().contains(
                #[trigger] ids@[k],
            ) by {
                assert(ids@.contains(ids@[k]));
            }
        }
        let v = crate::reads::page_at(&self.rows, &ids, limit, 0);
        assert(crate::ops::newest_first(self@, crate::ops::found(self@, q@), ids@));
        Ok(v)
    }

    /// Every node as a flat row, ids rising.
    pub fn dump_rows(&self) -> (r: Result<Vec<NodeRow>, StoreError>)
        requires
            self.wf(),
        ensures
            r matches Ok(v) && crate::load::is_dump(self@, crate::load::row_views(v@)),
    {
        Ok(crate::load::flat_rows(&self.rows))
    }

    /// A store of exactly these rows, which make up a decrypted vault. They have to
    /// form one tree: a single root folder, no id twice, nothing nested too deep and
    /// nothing out of the root's reach.
    pub fn from_vault_rows(rows: &[NodeRow]) -> (r: Result<Store, StoreError>)
        ensures
            match r {
                Ok(s) => {
                    &&& s.wf()
                    &&& crate::load::load_error(crate::load::row_views(rows@)) is None
                    &&& s@ == crate::load::vault_table(crate::load::row_views(rows@))
                },
                Err(e) => crate::load::load_error(crate::load::row_views(rows@)) == Some(e@),
            },
    {
        let ghost views = crate::load::row_views(rows@);
        let sorted = match crate::load::sorted_rows(rows) {
            Err(e) => {
                return Err(e);
            },
            Ok(v) => v,
        };
        let store = Store { rows: sorted };
        let ghost t = store@;
        proof {
            crate::rows::lemma_rows(store.rows@);
            assert(crate::ops::visible(t, true) =~= t);
        }
        let tree = match store.tree(true) {
            Err(_) => {
                proof {
                    crate::load::lemma_one_root(views);
                }
                return Err(StoreError::CorruptVault("vault tree is structurally invalid"));
            },
            Ok(n) => n,
        };
        proof {
            crate::load::lemma_one_root(views);
            crate::walk::lemma_tree_count(t, tree, MAX_DEPTH as nat);
            let below = crate::table::subtree(t, tree.id);
            assert(below.subset_of(t.dom()));
            vstd::set_lib::lemma_len_subset(below, t.dom());
            assert(crate::walk::node_count(tree) == below.len());
            assert(below.len() <= rows@.len());
            if below.len() == t.dom().len() {
                vstd::set_lib::lemma_subset_equality(below, t.dom());
            } else if !crate::load::has_unreachable(t, tree.id) {
                assert(below =~= t.dom());
            }
        }
        if crate::walk::count_nodes(&tree) != rows.len() {
            return Err(
                StoreError::CorruptVault(
                    "vault has unreachable nodes (dangling parent or orphan cycle)",
                ),
            );
        }
        Ok(store)
    }

    /// A store of the rows of the `nodes` table, in any order; `None` if two of them
    /// share their primary key, or if there are more than a table can hold.
    pub fn from_rows(rows: &Vec<TableRow>) -> (r: Option<Store>)
        ensures
            match r {
                Some(s) => {
                    &&& s.wf()
                    &&& crate::load::ids_differ(rows@)
                    &&& s@ == crate::rows::table_of(rows@)
                },
                None => !crate::load::ids_differ(rows@) || rows@.len() > MAX_ROWS,
            },
    {
        if rows.len() as u64 > MAX_ROWS {
            return None;
        }
        match crate::load::by_id(rows) {
            Some(rows) => Some(Store { rows }),
            None => None,
        }
    }

    /// How many rows there are.
    pub(crate) fn count(&self) -> (n: u64)
        requires
            self.wf(),
        ensures
            n == self@.dom().len(),
            n <= MAX_ROWS,
    {
        proof {
            crate::rows::lemma_rows(self.rows@);
        }
        self.rows.len() as u64
    }

    /// The id of the root folder.
    pub fn root_id(&self) -> (r: Result<i64, StoreError>)
        requires
            self.wf(),
        ensures
            match r {
                Ok(id) => crate::ops::root_of(self@) == Some(id),
                Err(e) => crate::ops::root_of(self@) is None && e@ == StoreErrorView::Sqlite(
                    "Query returned no rows"@,
                ),
            },
    {
        match first_root(&self.rows) {
            Some(id) => Ok(id),
            None => Err(StoreError::Sqlite("Query returned no rows".to_owned())),
        }
    }

    /// The position of the next child of `p`.
    pub(crate) fn next_position(&self, p: i64) -> (r: Result<i64, StoreError>)
        requires
            self.wf(),
        ensures
            match r {
                Ok(n) => {
                    &&& !crate::ops::positions_exhausted(self@, p)
                    &&& n == crate::ops::next_position(self@, p)
                    &&& crate::ops::is_next_position(self@, p, n)
                },
                Err(e) => {
                    &&& crate::ops::positions_exhausted(self@, p)
                    &&& e@ == crate::ops::position_error()
                },
            },
    {
        next_position(&self.rows, p)
    }

    /// Adds a row under a new id, whatever its parent. Returns the id.
    pub(crate) fn insert(
        &mut self,
        parent: Option<i64>,
        kind: NodeKind,
        title: String,
        url: Option<String>,
        position: i64,
        now: i64,
    ) -> (id: i64)
        requires
            old(self).wf(),
            old(self)@.dom().len() < MAX_ROWS,
        ensures
            final(self).wf(),
            crate::ops::is_new_id(old(self)@, id),
            final(self)@ == old(self)@.insert(
                id,
                Entry {
                    parent,
                    kind,
                    title: title@,
                    url: crate::node::opt_text(url),
                    position,
                    created: now,
                    modified: now,
                    hidden: false,
                },
            ),
    {
        proof {
            crate::rows::lemma_rows(self.rows@);
        }
        insert_new(&mut self.rows, parent, kind, title, url, position, now)
    }

    /// What has to be written to the `nodes` table to turn `before` into this store: the
    /// rows in which they differ, and no others.
    pub fn changes_since(&self, before: &Store) -> (r: Vec<RowChange>)
        requires
            self.wf(),
            before.wf(),
        ensures
            crate::changes::applied(before@, r@, r@.len()) == self@,
            forall|k: int|
                0 <= k < r@.len() ==> crate::changes::differs(before@, self@, #[trigger] r@[k]),
    {
        crate::changes::row_changes(&before.rows, &self.rows)
    }
}

} // verus!
