//! Rows kept sorted by id: the table they hold, and lookups in it.

use vstd::prelude::*;
use crate::node::TableRow;
use crate::table::{Entry, Table};

verus! {

/// The entry that a row holds.
pub open spec fn entry_of(r: TableRow) -> Entry {
    Entry {
        parent: r.row.parent_id,
        kind: r.row.kind,
        title: r.row.title@,
        url: crate::node::opt_text(r.row.url),
        position: r.row.position,
        created: r.row.created,
        modified: r.row.modified,
        hidden: r.hidden,
    }
}

/// Ids rise strictly.
pub open spec fn rows_sorted(s: Seq<TableRow>) -> bool {
    forall|i: int, j: int|
        #![trigger s[i], s[j]]
        0 <= i < j < s.len() ==> s[i].row.id < s[j].row.id
}

/// Some row of `s` has this id.
pub open spec fn has_row(s: Seq<TableRow>, id: i64) -> bool {
    exists|i: int| 0 <= i < s.len() && (#[trigger] s[i]).row.id == id
}

/// Where the row with this id stands.
pub open spec fn row_index(s: Seq<TableRow>, id: i64) -> int {
    choose|i: int| 0 <= i < s.len() && (#[trigger] s[i]).row.id == id
}

/// The table that the rows hold.
pub open spec fn table_of(s: Seq<TableRow>) -> Table {
    Map::new(|id: i64| has_row(s, id), |id: i64| entry_of(s[row_index(s, id)]))
}

pub proof fn lemma_row(s: Seq<TableRow>, i: int)
    requires
        rows_sorted(s),
        0 <= i < s.len(),
    ensures
        table_of(s).dom().contains(s[i].row.id),
        table_of(s)[s[i].row.id] == entry_of(s[i]),
        row_index(s, s[i].row.id) == i,
{
    let id = s[i].row.id;
    assert(has_row(s, id));
    let k = row_index(s, id);
    assert(0 <= k < s.len() && s[k].row.id == id);
    assert(k == i);
}

pub proof fn lemma_rows(s: Seq<TableRow>)
    requires
        rows_sorted(s),
    ensures
        forall|i: int|
            0 <= i < s.len() ==> {
                &&& table_of(s).dom().contains((#[trigger] s[i]).row.id)
                &&& table_of(s)[s[i].row.id] == entry_of(s[i])
            },
        forall|id: i64| #[trigger]
            table_of(s).dom().contains(id) ==> {
                &&& 0 <= row_index(s, id) < s.len()
                &&& s[row_index(s, id)].row.id == id
                &&& table_of(s)[id] == entry_of(s[row_index(s, id)])
            },
        table_of(s).dom().finite(),
        table_of(s).dom().len() == s.len(),
{
    assert forall|i: int| 0 <= i < s.len() implies {
        &&& table_of(s).dom().contains((#[trigger] s[i]).row.id)
        &&& table_of(s)[s[i].row.id] == entry_of(s[i])
    } by {
        lemma_row(s, i);
    }
    let ids = Seq::new(s.len(), |i: int| s[i].row.id);
    assert(ids.no_duplicates()) by {
        assert forall|i: int, j: int| 0 <= i < ids.len() && 0 <= j < ids.len() && i != j implies ids[i]
            != ids[j] by {
            assert(s[i].row.id == ids[i] && s[j].row.id == ids[j]);
        }
    }
    ids.unique_seq_to_set();
    assert(ids.to_set() =~= table_of(s).dom()) by {
        assert forall|id: i64| ids.to_set().contains(id) <==> table_of(s).dom().contains(id) by {
            if table_of(s).dom().contains(id) {
                assert(ids[row_index(s, id)] == id);
            }
            if ids.to_set().contains(id) {
                let i = choose|i: int| 0 <= i < ids.len() && ids[i] == id;
                assert(s[i].row.id == id);
            }
        }
    }
}

/// A table that the rows list completely is the table that they hold.
pub proof fn lemma_table_is(q: Seq<TableRow>, t: Table)
    requires
        rows_sorted(q),
        forall|i: int|
            0 <= i < q.len() ==> {
                &&& t.dom().contains((#[trigger] q[i]).row.id)
                &&& t[q[i].row.id] == entry_of(q[i])
            },
        forall|id: i64| #[trigger] t.dom().contains(id) ==> has_row(q, id),
    ensures
        table_of(q) == t,
{
    lemma_rows(q);
    assert(table_of(q) =~= t);
}

/// Sorted rows that agree one by one hold the same table.
pub proof fn lemma_same_rows(a: Seq<TableRow>, b: Seq<TableRow>)
    requires
        a.len() == b.len(),
        rows_sorted(b),
        forall|k: int|
            0 <= k < a.len() ==> (#[trigger] a[k]).row.id == b[k].row.id && entry_of(a[k])
                == entry_of(b[k]),
    ensures
        rows_sorted(a),
        table_of(a) == table_of(b),
{
    assert forall|i: int, j: int|
        #![trigger a[i], a[j]]
        0 <= i < j < a.len() implies a[i].row.id < a[j].row.id by {
        assert(b[i].row.id < b[j].row.id);
    }
    lemma_rows(b);
    assert forall|k: int| 0 <= k < a.len() implies {
        &&& table_of(b).dom().contains((#[trigger] a[k]).row.id)
        &&& table_of(b)[a[k].row.id] == entry_of(a[k])
    } by {
        lemma_row(b, k);
    }
    assert forall|id: i64| #[trigger] table_of(b).dom().contains(id) implies has_row(a, id) by {
        assert(a[row_index(b, id)].row.id == id);
    }
    lemma_table_is(a, table_of(b));
}

/// Replacing a row by another with the same id replaces its entry.
pub proof fn lemma_row_update(s: Seq<TableRow>, i: int, r: TableRow)
    requires
        rows_sorted(s),
        0 <= i < s.len(),
        r.row.id == s[i].row.id,
    ensures
        rows_sorted(s.update(i, r)),
        table_of(s.update(i, r)) == table_of(s).insert(r.row.id, entry_of(r)),
{
    let q = s.update(i, r);
    let t = table_of(s).insert(r.row.id, entry_of(r));
    assert(rows_sorted(q)) by {
        assert forall|a: int, b: int|
            #![trigger q[a], q[b]]
            0 <= a < b < q.len() implies q[a].row.id < q[b].row.id by {
            assert(s[a].row.id < s[b].row.id);
        }
    }
    lemma_row(s, i);
    assert forall|k: int| 0 <= k < q.len() implies {
        &&& t.dom().contains((#[trigger] q[k]).row.id)
        &&& t[q[k].row.id] == entry_of(q[k])
    } by {
        lemma_row(s, k);
        assert(k != i ==> s[k].row.id != s[i].row.id);
    }
    assert forall|id: i64| #[trigger] t.dom().contains(id) implies has_row(q, id) by {
        if id == r.row.id {
            assert(q[i].row.id == id);
        } else {
            let k = row_index(s, id);
            assert(q[k].row.id == id);
        }
    }
    lemma_table_is(q, t);
}

/// Inserting a row at its place adds its entry.
pub proof fn lemma_row_insert(s: Seq<TableRow>, i: int, r: TableRow)
    requires
        rows_sorted(s),
        0 <= i <= s.len(),
        forall|k: int| 0 <= k < i ==> (#[trigger] s[k]).row.id < r.row.id,
        forall|k: int| i <= k < s.len() ==> r.row.id < (#[trigger] s[k]).row.id,
    ensures
        rows_sorted(s.insert(i, r)),
        table_of(s.insert(i, r)) == table_of(s).insert(r.row.id, entry_of(r)),
        !table_of(s).dom().contains(r.row.id),
{
    let q = s.insert(i, r);
    let t = table_of(s).insert(r.row.id, entry_of(r));
    assert forall|k: int| 0 <= k < q.len() implies #[trigger] q[k] == (if k < i {
        s[k]
    } else if k == i {
        r
    } else {
        s[k - 1]
    }) by {}
    assert(rows_sorted(q)) by {
        assert forall|a: int, b: int|
            #![trigger q[a], q[b]]
            0 <= a < b < q.len() implies q[a].row.id < q[b].row.id by {
            if a < i && b < i {
                assert(s[a].row.id < s[b].row.id);
            } else if a < i && b > i {
                assert(s[a].row.id < s[b - 1].row.id);
            } else if a > i {
                assert(s[a - 1].row.id < s[b - 1].row.id);
            }
        }
    }
    assert forall|k: int| 0 <= k < q.len() implies {
        &&& t.dom().contains((#[trigger] q[k]).row.id)
        &&& t[q[k].row.id] == entry_of(q[k])
    } by {
        if k < i {
            lemma_row(s, k);
        } else if k > i {
            lemma_row(s, k - 1);
        }
    }
    assert forall|id: i64| #[trigger] t.dom().contains(id) implies has_row(q, id) by {
        if id == r.row.id {
            assert(q[i].row.id == id);
        } else {
            let k = row_index(s, id);
            assert(0 <= k < s.len() && s[k].row.id == id);
            if k < i {
                assert(q[k].row.id == id);
            } else {
                assert(q[k + 1].row.id == id);
            }
        }
    }
    lemma_table_is(q, t);
}

/// Where the row with this id stands, or where it would have to be inserted.
pub fn find_row(rows: &Vec<TableRow>, id: i64) -> (r: Result<usize, usize>)
    requires
        rows_sorted(rows@),
    ensures
        match r {
            Ok(i) => {
                &&& i < rows@.len()
                &&& rows@[i as int].row.id == id
                &&& table_of(rows@).dom().contains(id)
                &&& table_of(rows@)[id] == entry_of(rows@[i as int])
            },
            Err(i) => {
                &&& i <= rows@.len()
                &&& forall|k: int| 0 <= k < i ==> (#[trigger] rows@[k]).row.id < id
                &&& forall|k: int| i <= k < rows@.len() ==> id < (#[trigger] rows@[k]).row.id
                &&& !table_of(rows@).dom().contains(id)
            },
        },
{
    let mut lo: usize = 0;
    let mut hi: usize = rows.len();
    while lo < hi
        invariant
            rows_sorted(rows@),
            lo <= hi <= rows@.len(),
            forall|k: int| 0 <= k < lo ==> (#[trigger] rows@[k]).row.id < id,
            forall|k: int| hi <= k < rows@.len() ==> id < (#[trigger] rows@[k]).row.id,
        decreases hi - lo,
    {
        let mid: usize = lo + (hi - lo) / 2;
        let here: i64 = rows[mid].row.id;
        if here == id {
            proof {
                lemma_row(rows@, mid as int);
            }
            return Ok(mid);
        }
        if here < id {
            assert forall|k: int| 0 <= k <= mid implies (#[trigger] rows@[k]).row.id < id by {
                assert(k < mid ==> rows@[k].row.id < rows@[mid as int].row.id);
            }
            lo = mid + 1;
        } else {
            assert forall|k: int| mid <= k < rows@.len() implies id < (#[trigger] rows@[k]).row.id by {
                assert(k > mid ==> rows@[mid as int].row.id < rows@[k].row.id);
            }
            hi = mid;
        }
    }
    Err(lo)
}

/// Where the row of an id of the table stands.
pub fn row_place(rows: &Vec<TableRow>, id: i64) -> (i: usize)
    requires
        rows_sorted(rows@),
        table_of(rows@).dom().contains(id),
    ensures
        i < rows@.len(),
        rows@[i as int].row.id == id,
        table_of(rows@)[id] == entry_of(rows@[i as int]),
        i == row_index(rows@, id),
{
    match find_row(rows, id) {
        Ok(i) => {
            proof {
                lemma_row(rows@, i as int);
            }
            i
        },
        Err(i) => i,
    }
}

/// Pairs rise strictly, the first component deciding before the second.
pub open spec fn pair_less(a: (i64, i64), b: (i64, i64)) -> bool {
    a.0 < b.0 || (a.0 == b.0 && a.1 < b.1)
}

pub open spec fn pairs_sorted(s: Seq<(i64, i64)>) -> bool {
    forall|i: int, j: int| #![trigger s[i], s[j]] 0 <= i < j < s.len() ==> pair_less(s[i], s[j])
}

/// Inserts a new pair at its place.
pub fn insert_pair(v: &mut Vec<(i64, i64)>, x: (i64, i64))
    requires
        pairs_sorted(old(v)@),
        !old(v)@.contains(x),
    ensures
        pairs_sorted(final(v)@),
        final(v)@.len() == old(v)@.len() + 1,
        forall|y: (i64, i64)| final(v)@.contains(y) <==> (old(v)@.contains(y) || y == x),
{
    let mut lo: usize = 0;
    let mut hi: usize = v.len();
    let ghost s = v@;
    while lo < hi
        invariant
            v@ == s,
            pairs_sorted(s),
            !s.contains(x),
            lo <= hi <= s.len(),
            forall|k: int| 0 <= k < lo ==> pair_less(#[trigger] s[k], x),
            forall|k: int| hi <= k < s.len() ==> pair_less(x, #[trigger] s[k]),
        decreases hi - lo,
    {
        let mid: usize = lo + (hi - lo) / 2;
        let here: (i64, i64) = v[mid];
        assert(s[mid as int] == here);
        assert(s.contains(here));
        if here.0 < x.0 || (here.0 == x.0 && here.1 < x.1) {
            assert forall|k: int| 0 <= k <= mid implies pair_less(#[trigger] s[k], x) by {
                assert(k < mid ==> pair_less(s[k], s[mid as int]));
            }
            lo = mid + 1;
        } else {
            assert(here != x);
            assert forall|k: int| mid <= k < s.len() implies pair_less(x, #[trigger] s[k]) by {
                assert(k > mid ==> pair_less(s[mid as int], s[k]));
            }
            hi = mid;
        }
    }
    v.insert(lo, x);
    proof {
        let q = v@;
        let j = lo as int;
        assert(q == s.insert(j, x));
        assert forall|a: int, b: int|
            #![trigger q[a], q[b]]
            0 <= a < b < q.len() implies pair_less(q[a], q[b]) by {
            let c = if a < j { a } else { a - 1 };
            let d = if b < j { b } else { b - 1 };
            if a == j {
                assert(q[b] == s[d]);
            } else if b == j {
                assert(q[a] == s[c]);
            } else {
                assert(q[a] == s[c] && q[b] == s[d]);
            }
        }
        assert forall|y: (i64, i64)| q.contains(y) <==> (s.contains(y) || y == x) by {
            if q.contains(y) {
                let k = choose|k: int| 0 <= k < q.len() && q[k] == y;
                if k != j {
                    assert(s[if k < j { k } else { k - 1 }] == y);
                }
            }
            if y == x {
                assert(q[j] == y);
            } else if s.contains(y) {
                let k = choose|k: int| 0 <= k < s.len() && s[k] == y;
                assert(q[if k < j { k } else { k + 1 }] == y);
            }
        }
    }
}

/// The ids under `p`, in sibling order.
pub fn ordered_kids(rows: &Vec<TableRow>, p: Option<i64>) -> (r: Vec<i64>)
    requires
        rows_sorted(rows@),
    ensures
        crate::table::in_order(table_of(rows@), p, r@),
{
    let ghost t = table_of(rows@);
    let mut pairs: Vec<(i64, i64)> = Vec::new();
    let mut i: usize = 0;
    while i < rows.len()
        invariant
            rows_sorted(rows@),
            i <= rows@.len(),
            pairs_sorted(pairs@),
            forall|q: (i64, i64)|
                pairs@.contains(q) <==> exists|k: int|
                    {
                        &&& 0 <= k < i
                        &&& (#[trigger] rows@[k]).row.parent_id == p
                        &&& q == (rows@[k].row.position, rows@[k].row.id)
                    },
        decreases rows@.len() - i,
    {
        if rows[i].row.parent_id == p {
            let x: (i64, i64) = (rows[i].row.position, rows[i].row.id);
            proof {
                if pairs@.contains(x) {
                    let k = choose|k: int|
                        {
                            &&& 0 <= k < i
                            &&& (#[trigger] rows@[k]).row.parent_id == p
                            &&& x == (rows@[k].row.position, rows@[k].row.id)
                        };
                    assert(rows@[k].row.id < rows@[i as int].row.id);
                }
            }
            insert_pair(&mut pairs, x);
        }
        i = i + 1;
    }
    let mut r: Vec<i64> = Vec::new();
    let mut j: usize = 0;
    while j < pairs.len()
        invariant
            j <= pairs@.len(),
            r@.len() == j,
            forall|k: int| 0 <= k < j ==> r@[k] == (#[trigger] pairs@[k]).1,
        decreases pairs@.len() - j,
    {
        r.push(pairs[j].1);
        j = j + 1;
    }
    proof {
        lemma_rows(rows@);
        let s = r@;
        assert forall|k: int| 0 <= k < s.len() implies {
            &&& crate::table::sits_under(t, p, #[trigger] s[k])
            &&& pairs@[k] == (t[s[k]].position, s[k])
        } by {
            assert(pairs@.contains(pairs@[k]));
        }
        assert forall|a: int, b: int|
            #![trigger s[a], s[b]]
            0 <= a < b < s.len() implies crate::table::before(t, s[a], s[b]) by {
            assert(pair_less(pairs@[a], pairs@[b]));
        }
        assert forall|x: i64| s.contains(x) <==> crate::table::sits_under(t, p, x) by {
            if crate::table::sits_under(t, p, x) {
                let k = row_index(rows@, x);
                let q = (rows@[k].row.position, rows@[k].row.id);
                assert(pairs@.contains(q));
                let m = choose|m: int| 0 <= m < pairs@.len() && pairs@[m] == q;
                assert(s[m] == x);
            }
        }
    }
    r
}

/// Ids rise strictly.
pub open spec fn ids_sorted(s: Seq<i64>) -> bool {
    forall|i: int, j: int| #![trigger s[i], s[j]] 0 <= i < j < s.len() ==> s[i] < s[j]
}

/// Whether a rising list holds `id`.
pub fn holds_id(v: &Vec<i64>, id: i64) -> (r: bool)
    requires
        ids_sorted(v@),
    ensures
        r == v@.contains(id),
{
    let mut lo: usize = 0;
    let mut hi: usize = v.len();
    while lo < hi
        invariant
            ids_sorted(v@),
            lo <= hi <= v@.len(),
            forall|k: int| 0 <= k < lo ==> #[trigger] v@[k] < id,
            forall|k: int| hi <= k < v@.len() ==> id < #[trigger] v@[k],
        decreases hi - lo,
    {
        let mid: usize = lo + (hi - lo) / 2;
        let here: i64 = v[mid];
        if here == id {
            assert(v@[mid as int] == id);
            return true;
        }
        if here < id {
            assert forall|k: int| 0 <= k <= mid implies #[trigger] v@[k] < id by {
                assert(k < mid ==> v@[k] < v@[mid as int]);
            }
            lo = mid + 1;
        } else {
            assert forall|k: int| mid <= k < v@.len() implies id < #[trigger] v@[k] by {
                assert(k > mid ==> v@[mid as int] < v@[k]);
            }
            hi = mid;
        }
    }
    false
}

/// The ids whose parent is among `level`, rising.
pub fn level_below(rows: &Vec<TableRow>, level: &Vec<i64>) -> (r: Vec<i64>)
    requires
        rows_sorted(rows@),
        ids_sorted(level@),
    ensures
        ids_sorted(r@),
        forall|x: i64|
            r@.contains(x) <==> (crate::table::parent_in(table_of(rows@), x) matches Some(p)
                && level@.contains(p)),
{
    let ghost t = table_of(rows@);
    let mut r: Vec<i64> = Vec::new();
    let mut i: usize = 0;
    proof {
        lemma_rows(rows@);
    }
    while i < rows.len()
        invariant
            t == table_of(rows@),
            rows_sorted(rows@),
            ids_sorted(level@),
            i <= rows@.len(),
            ids_sorted(r@),
            forall|x: i64|
                r@.contains(x) <==> exists|k: int|
                    {
                        &&& 0 <= k < i
                        &&& (#[trigger] rows@[k]).row.id == x
                        &&& rows@[k].row.parent_id is Some
                        &&& level@.contains(rows@[k].row.parent_id->0)
                    },
        decreases rows@.len() - i,
    {
        if let Some(p) = rows[i].row.parent_id {
            if holds_id(level, p) {
                let id: i64 = rows[i].row.id;
                proof {
                    assert forall|a: int| 0 <= a < r@.len() implies #[trigger] r@[a] < id by {
                        assert(r@.contains(r@[a]));
                        let k = choose|k: int|
                            {
                                &&& 0 <= k < i
                                &&& (#[trigger] rows@[k]).row.id == r@[a]
                                &&& rows@[k].row.parent_id is Some
                                &&& level@.contains(rows@[k].row.parent_id->0)
                            };
                        assert(rows@[k].row.id < rows@[i as int].row.id);
                    }
                    let q = r@.push(id);
                    assert forall|x: i64| q.contains(x) <==> (r@.contains(x) || x == id) by {
                        if q.contains(x) {
                            let k = choose|k: int| 0 <= k < q.len() && q[k] == x;
                            if k < r@.len() {
                                assert(r@[k] == x);
                            }
                        }
                        if r@.contains(x) {
                            let k = choose|k: int| 0 <= k < r@.len() && r@[k] == x;
                            assert(q[k] == x);
                        }
                        if x == id {
                            assert(q[r@.len() as int] == x);
                        }
                    }
                }
                r.push(id);
            }
        }
        i = i + 1;
    }
    proof {
        assert forall|x: i64|
            r@.contains(x) <==> (crate::table::parent_in(t, x) matches Some(p) && level@.contains(p)) by {
            if crate::table::parent_in(t, x) matches Some(p) && level@.contains(p) {
                assert(rows@[row_index(rows@, x)].row.id == x);
            }
        }
    }
    r
}

/// The part of the table whose rows are marked.
pub open spec fn kept(s: Seq<TableRow>, keep: Seq<bool>) -> Table {
    Map::new(
        |id: i64| has_row(s, id) && keep[row_index(s, id)],
        |id: i64| entry_of(s[row_index(s, id)]),
    )
}

/// The rows that are marked.
pub fn keep_rows(rows: &Vec<TableRow>, keep: &Vec<bool>) -> (r: Vec<TableRow>)
    requires
        rows_sorted(rows@),
        keep@.len() == rows@.len(),
    ensures
        rows_sorted(r@),
        r@.len() <= rows@.len(),
        table_of(r@) == kept(rows@, keep@),
{
    let ghost t = table_of(rows@);
    let mut r: Vec<TableRow> = Vec::new();
    let mut i: usize = 0;
    while i < rows.len()
        invariant
            rows_sorted(rows@),
            keep@.len() == rows@.len(),
            t == table_of(rows@),
            i <= rows@.len(),
            r@.len() <= i,
            rows_sorted(r@),
            forall|a: int, b: int|
                #![trigger r@[a], rows@[b]]
                0 <= a < r@.len() && i <= b < rows@.len() ==> r@[a].row.id < rows@[b].row.id,
            forall|k: int|
                0 <= k < i && keep@[k] ==> has_row(r@, (#[trigger] rows@[k]).row.id),
            forall|a: int|
                0 <= a < r@.len() ==> {
                    &&& t.dom().contains((#[trigger] r@[a]).row.id)
                    &&& keep@[row_index(rows@, r@[a].row.id)]
                    &&& entry_of(r@[a]) == t[r@[a].row.id]
                },
        decreases rows@.len() - i,
    {
        if keep[i] {
            let ghost s = r@;
            let copy = rows[i].clone();
            proof {
                lemma_row(rows@, i as int);
                assert(copy.row@.id == rows@[i as int].row@.id);
                assert(entry_of(copy) == entry_of(rows@[i as int])) by {
                    assert(copy.row@ == rows@[i as int].row@);
                }
            }
            r.push(copy);
            proof {
                assert(r@[s.len() as int] == copy);
                assert forall|k: int| 0 <= k < i + 1 && keep@[k] implies has_row(
                    r@,
                    (#[trigger] rows@[k]).row.id,
                ) by {
                    if k < i {
                        let m = row_index(s, rows@[k].row.id);
                        assert(s[m].row.id == rows@[k].row.id);
                        assert(r@[m].row.id == rows@[k].row.id);
                    } else {
                        assert(r@[s.len() as int].row.id == rows@[k].row.id);
                    }
                }
            }
        }
        i = i + 1;
    }
    proof {
        let want = kept(rows@, keep@);
        assert forall|a: int| 0 <= a < r@.len() implies {
            &&& want.dom().contains((#[trigger] r@[a]).row.id)
            &&& want[r@[a].row.id] == entry_of(r@[a])
        } by {}
        assert forall|x: i64| #[trigger] want.dom().contains(x) implies has_row(r@, x) by {
            let k = row_index(rows@, x);
            assert(rows@[k].row.id == x);
        }
        lemma_table_is(r@, want);
    }
    r
}

} // verus!
