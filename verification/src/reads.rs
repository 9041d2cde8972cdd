//! Reads over sorted rows: what is visible, newest-first lists, pages.

use vstd::prelude::*;
use crate::node::{Node, NodeKind, TableRow};
use crate::ops::PAGE_LIMIT;

verus! {

/// The rows that a read shows.
pub fn visible_rows(rows: &Vec<TableRow>, include_hidden: bool) -> (r: Vec<TableRow>)
    requires
        crate::rows::rows_sorted(rows@),
    ensures
        crate::rows::rows_sorted(r@),
        r@.len() <= rows@.len(),
        crate::rows::table_of(r@) == crate::ops::visible(
            crate::rows::table_of(rows@),
            include_hidden,
        ),
{
    let mut keep: Vec<bool> = Vec::new();
    let mut i: usize = 0;
    while i < rows.len()
        invariant
            i <= rows@.len(),
            keep@.len() == i,
            forall|k: int|
                0 <= k < i ==> #[trigger] keep@[k] == (include_hidden || !rows@[k].hidden),
        decreases rows@.len() - i,
    {
        keep.push(include_hidden || !rows[i].hidden);
        i = i + 1;
    }
    proof {
        crate::rows::lemma_rows(rows@);
        let t = crate::rows::table_of(rows@);
        assert forall|x: i64| t.dom().contains(x) implies keep@[crate::rows::row_index(rows@, x)]
            == (include_hidden || !t[x].hidden) by {}
        assert(crate::rows::kept(rows@, keep@) =~= crate::ops::visible(t, include_hidden));
    }
    crate::rows::keep_rows(rows, &keep)
}

/// The ids of the marked rows, newest first.
pub fn newest_ids(rows: &Vec<TableRow>, pick: &Vec<bool>) -> (r: Vec<i64>)
    requires
        crate::rows::rows_sorted(rows@),
        pick@.len() == rows@.len(),
    ensures
        crate::ops::newest_first(
            crate::rows::table_of(rows@),
            crate::rows::kept(rows@, pick@).dom(),
            r@,
        ),
{
    let ghost t = crate::rows::table_of(rows@);
    let ghost want = crate::rows::kept(rows@, pick@).dom();
    let mut pairs: Vec<(i64, i64)> = Vec::new();
    let mut i: usize = 0;
    while i < rows.len()
        invariant
            crate::rows::rows_sorted(rows@),
            pick@.len() == rows@.len(),
            i <= rows@.len(),
            crate::rows::pairs_sorted(pairs@),
            forall|q: (i64, i64)|
                pairs@.contains(q) <==> exists|k: int|
                    {
                        &&& 0 <= k < i
                        &&& #[trigger] pick@[k]
                        &&& q == (rows@[k].row.created, rows@[k].row.id)
                    },
        decreases rows@.len() - i,
    {
        if pick[i] {
            let x: (i64, i64) = (rows[i].row.created, rows[i].row.id);
            proof {
                if pairs@.contains(x) {
                    let k = choose|k: int|
                        {
                            &&& 0 <= k < i
                            &&& #[trigger] pick@[k]
                            &&& x == (rows@[k].row.created, rows@[k].row.id)
                        };
                    assert(rows@[k].row.id < rows@[i as int].row.id);
                }
            }
            crate::rows::insert_pair(&mut pairs, x);
            assert(pick@[i as int]);
        }
        i = i + 1;
    }
    let mut r: Vec<i64> = Vec::new();
    let mut j: usize = pairs.len();
    while j > 0
        invariant
            j <= pairs@.len(),
            r@.len() == pairs@.len() - j,
            forall|k: int| 0 <= k < r@.len() ==> #[trigger] r@[k] == pairs@[pairs@.len() - 1 - k].1,
        decreases j,
    {
        j = j - 1;
        r.push(pairs[j].1);
    }
    proof {
        crate::rows::lemma_rows(rows@);
        let s = r@;
        let n = s.len();
        assert forall|k: int| 0 <= k < n implies {
            &&& want.contains(#[trigger] s[k])
            &&& pairs@[n - 1 - k] == (t[s[k]].created, s[k])
        } by {
            let q = pairs@[n - 1 - k];
            assert(pairs@.contains(q));
            let m = choose|m: int|
                {
                    &&& 0 <= m < rows@.len()
                    &&& #[trigger] pick@[m]
                    &&& q == (rows@[m].row.created, rows@[m].row.id)
                };
            crate::rows::lemma_row(rows@, m);
        }
        assert forall|a: int, b: int|
            #![trigger s[a], s[b]]
            0 <= a < b < n implies crate::ops::newer(t, s[a], s[b]) by {
            assert(crate::rows::pair_less(pairs@[n - 1 - b], pairs@[n - 1 - a]));
        }
        assert forall|x: i64| s.contains(x) <==> want.contains(x) by {
            if want.contains(x) {
                let k = crate::rows::row_index(rows@, x);
                let q = (rows@[k].row.created, rows@[k].row.id);
                assert(pick@[k]);
                assert(pairs@.contains(q));
                let m = choose|m: int| 0 <= m < pairs@.len() && pairs@[m] == q;
                assert(s[n - 1 - m] == pairs@[n - 1 - (n - 1 - m)].1);
            }
        }
    }
    r
}

/// The nodes of the listed ids from `from` up to `to`, without children.
pub fn flat_nodes(rows: &Vec<TableRow>, ids: &Vec<i64>, from: usize, to: usize) -> (r: Vec<Node>)
    requires
        crate::rows::rows_sorted(rows@),
        from <= to <= ids@.len(),
        forall|k: int|
            0 <= k < ids@.len() ==> crate::rows::table_of(rows@).dom().contains(#[trigger] ids@[k]),
    ensures
        crate::ops::shows_list(
            crate::rows::table_of(rows@),
            r@,
            ids@.subrange(from as int, to as int),
        ),
{
    let mut r: Vec<Node> = Vec::new();
    let mut i: usize = from;
    while i < to
        invariant
            crate::rows::rows_sorted(rows@),
            from <= i <= to <= ids@.len(),
            forall|k: int|
                0 <= k < ids@.len() ==> crate::rows::table_of(rows@).dom().contains(
                    #[trigger] ids@[k],
                ),
            r@.len() == i - from,
            forall|k: int|
                0 <= k < r@.len() ==> (#[trigger] r@[k]).id == ids@[from + k]
                    && crate::walk::shows_flat(crate::rows::table_of(rows@), r@[k]),
        decreases to - i,
    {
        let at: usize = crate::rows::row_place(rows, ids[i]);
        r.push(crate::walk::row_to_node(&rows[at]));
        i = i + 1;
    }
    r
}

/// How many nodes a page may hold.
fn page_length(limit: i64) -> (r: usize)
    ensures
        r == crate::ops::page_limit(limit),
{
    if limit < 1 {
        1
    } else if limit > PAGE_LIMIT {
        PAGE_LIMIT as usize
    } else {
        limit as usize
    }
}

/// The page of the listed ids that starts at `offset`.
pub fn page_at(rows: &Vec<TableRow>, ids: &Vec<i64>, limit: i64, offset: i64) -> (r: Vec<Node>)
    requires
        crate::rows::rows_sorted(rows@),
        forall|k: int|
            0 <= k < ids@.len() ==> crate::rows::table_of(rows@).dom().contains(#[trigger] ids@[k]),
    ensures
        crate::ops::is_page(
            crate::rows::table_of(rows@),
            crate::ops::window(ids@, limit, offset),
            r@,
        ),
{
    let n: usize = ids.len();
    let count: usize = page_length(limit);
    let from: usize = if offset < 0 {
        0
    } else if offset as u64 > n as u64 {
        n
    } else {
        offset as usize
    };
    let to: usize = if count > n - from {
        n
    } else {
        from + count
    };
    let all = flat_nodes(rows, ids, from, to);
    assert(ids@.subrange(from as int, to as int) == crate::ops::window(ids@, limit, offset));
    crate::page::trim_to_byte_budget(all)
}

/// The rows that are bookmarks, marked.
pub fn bookmark_marks(rows: &Vec<TableRow>) -> (r: Vec<bool>)
    requires
        crate::rows::rows_sorted(rows@),
    ensures
        r@.len() == rows@.len(),
        crate::rows::kept(rows@, r@).dom() == crate::ops::bookmarks(crate::rows::table_of(rows@)),
{
    let mut r: Vec<bool> = Vec::new();
    let mut i: usize = 0;
    while i < rows.len()
        invariant
            i <= rows@.len(),
            r@.len() == i,
            forall|k: int|
                0 <= k < i ==> #[trigger] r@[k] == (rows@[k].row.kind == NodeKind::Bookmark),
        decreases rows@.len() - i,
    {
        r.push(rows[i].row.kind == NodeKind::Bookmark);
        i = i + 1;
    }
    proof {
        crate::rows::lemma_rows(rows@);
        let t = crate::rows::table_of(rows@);
        assert forall|x: i64| t.dom().contains(x) implies r@[crate::rows::row_index(rows@, x)] == (
        t[x].kind == NodeKind::Bookmark) by {}
        assert(crate::rows::kept(rows@, r@).dom() =~= crate::ops::bookmarks(t));
    }
    r
}

/// Whether a row is found by a search pattern.
fn row_found(r: &TableRow, pattern: &Vec<char>, Ghost(q): Ghost<Seq<char>>) -> (found: bool)
    requires
        pattern@ == crate::like::anywhere(q),
    ensures
        found == ({
            &&& r.row.parent_id is Some
            &&& (crate::like::contains_text(r.row.title@, q) || (crate::node::opt_text(
                r.row.url,
            ) matches Some(u) && crate::like::contains_text(u, q)))
        }),
{
    proof {
        crate::like::lemma_like_is_contains(q, r.row.title@);
        if let Some(u) = crate::node::opt_text(r.row.url) {
            crate::like::lemma_like_is_contains(q, u);
        }
    }
    if r.row.parent_id.is_none() {
        return false;
    }
    if crate::like::matches_text(pattern, r.row.title.as_str()) {
        return true;
    }
    match &r.row.url {
        Some(u) => crate::like::matches_text(pattern, u.as_str()),
        None => false,
    }
}

/// The rows that a search for `q` finds, marked.
pub fn found_marks(rows: &Vec<TableRow>, q: &str) -> (r: Vec<bool>)
    requires
        crate::rows::rows_sorted(rows@),
    ensures
        r@.len() == rows@.len(),
        crate::rows::kept(rows@, r@).dom() == crate::ops::found(crate::rows::table_of(rows@), q@),
{
    let pattern = crate::like::search_pattern(q);
    let mut r: Vec<bool> = Vec::new();
    let mut i: usize = 0;
    let ghost t = crate::rows::table_of(rows@);
    let ghost want = crate::ops::found(t, q@);
    while i < rows.len()
        invariant
            crate::rows::rows_sorted(rows@),
            t == crate::rows::table_of(rows@),
            want == crate::ops::found(t, q@),
            pattern@ == crate::like::anywhere(q@),
            i <= rows@.len(),
            r@.len() == i,
            forall|k: int| 0 <= k < i ==> #[trigger] r@[k] == want.contains(rows@[k].row.id),
        decreases rows@.len() - i,
    {
        proof {
            crate::rows::lemma_row(rows@, i as int);
        }
        r.push(row_found(&rows[i], &pattern, Ghost(q@)));
        i = i + 1;
    }
    proof {
        crate::rows::lemma_rows(rows@);
        assert forall|x: i64| t.dom().contains(x) implies r@[crate::rows::row_index(rows@, x)]
            == want.contains(x) by {}
        assert(crate::rows::kept(rows@, r@).dom() =~= want);
    }
    r
}

} // verus!
