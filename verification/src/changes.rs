//! The difference between two node tables, row by row.

use vstd::prelude::*;
use crate::node::TableRow;
use crate::table::Table;

verus! {

/// One write to the `nodes` table.
#[derive(Debug)]
pub enum RowChange {
    /// Insert this row, or replace the one with its id.
    Put(TableRow),
    /// Delete the row with this id.
    Delete(i64),
}

/// The table after one write.
pub open spec fn applied_one(t: Table, c: RowChange) -> Table {
    match c {
        RowChange::Put(r) => t.insert(r.row.id, crate::rows::entry_of(r)),
        RowChange::Delete(id) => t.remove(id),
    }
}

/// The table after the first `k` writes.
pub open spec fn applied(t: Table, cs: Seq<RowChange>, k: nat) -> Table
    decreases k,
{
    if k == 0 {
        t
    } else {
        applied_one(applied(t, cs, (k - 1) as nat), cs[k - 1])
    }
}

/// The write is one in which the tables `t` and `u` differ: a row that is not in `t` as it
/// stands, or one that is no longer in `u`.
pub open spec fn differs(t: Table, u: Table, c: RowChange) -> bool {
    match c {
        RowChange::Put(r) => !(t.dom().contains(r.row.id) && t[r.row.id] == crate::rows::entry_of(
            r,
        )),
        RowChange::Delete(id) => t.dom().contains(id) && !u.dom().contains(id),
    }
}

proof fn lemma_applied_prefix(t: Table, a: Seq<RowChange>, b: Seq<RowChange>, k: nat)
    requires
        k <= a.len(),
        a.len() <= b.len(),
        forall|i: int| 0 <= i < a.len() ==> a[i] == b[i],
    ensures
        applied(t, a, k) == applied(t, b, k),
    decreases k,
{
    if k > 0 {
        lemma_applied_prefix(t, a, b, (k - 1) as nat);
    }
}

fn same_opt_text(a: &Option<String>, b: &Option<String>) -> (r: bool)
    ensures
        r == (crate::node::opt_text(*a) == crate::node::opt_text(*b)),
{
    match (a, b) {
        (Some(a), Some(b)) => crate::text::same_text(a.as_str(), b.as_str()),
        (None, None) => true,
        _ => false,
    }
}

/// Whether two rows hold the same entry.
fn same_entry(a: &TableRow, b: &TableRow) -> (r: bool)
    ensures
        r == (crate::rows::entry_of(*a) == crate::rows::entry_of(*b)),
{
    a.row.parent_id == b.row.parent_id && a.row.kind == b.row.kind && crate::text::same_text(
        a.row.title.as_str(),
        b.row.title.as_str(),
    ) && same_opt_text(&a.row.url, &b.row.url) && a.row.position == b.row.position && a.row.created
        == b.row.created && a.row.modified == b.row.modified && a.hidden == b.hidden
}

/// The table made of `new` below `edge` and of `old` from there on.
spec fn spliced(old_t: Table, new_t: Table, i: int, j: int, a: Seq<TableRow>, b: Seq<TableRow>) -> Table {
    Map::new(
        |x: i64|
            {
                ||| (new_t.dom().contains(x) && crate::rows::row_index(b, x) < j)
                ||| (old_t.dom().contains(x) && crate::rows::row_index(a, x) >= i)
            },
        |x: i64|
            if new_t.dom().contains(x) && crate::rows::row_index(b, x) < j {
                new_t[x]
            } else {
                old_t[x]
            },
    )
}

/// The writes that turn the table of `a` into that of `b`, for the rows in which they
/// differ and no others.
pub fn row_changes(a: &Vec<TableRow>, b: &Vec<TableRow>) -> (r: Vec<RowChange>)
    requires
        crate::rows::rows_sorted(a@),
        crate::rows::rows_sorted(b@),
    ensures
        applied(crate::rows::table_of(a@), r@, r@.len()) == crate::rows::table_of(b@),
        forall|k: int|
            0 <= k < r@.len() ==> differs(
                crate::rows::table_of(a@),
                crate::rows::table_of(b@),
                #[trigger] r@[k],
            ),
{
    let ghost s = crate::rows::table_of(a@);
    let ghost t = crate::rows::table_of(b@);
    let mut r: Vec<RowChange> = Vec::new();
    let mut i: usize = 0;
    let mut j: usize = 0;
    proof {
        crate::rows::lemma_rows(a@);
        crate::rows::lemma_rows(b@);
        assert(spliced(s, t, 0, 0, a@, b@) =~= s);
    }
    while i < a.len() || j < b.len()
        invariant
            crate::rows::rows_sorted(a@),
            crate::rows::rows_sorted(b@),
            s == crate::rows::table_of(a@),
            t == crate::rows::table_of(b@),
            i <= a@.len(),
            j <= b@.len(),
            forall|p: int, q: int|
                #![trigger a@[p], b@[q]]
                0 <= p < i && j <= q < b@.len() ==> a@[p].row.id < b@[q].row.id,
            forall|p: int, q: int|
                #![trigger a@[p], b@[q]]
                i <= p < a@.len() && 0 <= q < j ==> b@[q].row.id < a@[p].row.id,
            applied(s, r@, r@.len()) == spliced(s, t, i as int, j as int, a@, b@),
            forall|k: int| 0 <= k < r@.len() ==> differs(s, t, #[trigger] r@[k]),
        decreases a@.len() - i + b@.len() - j,
    {
        let ghost before = r@;
        proof {
            crate::rows::lemma_rows(a@);
            crate::rows::lemma_rows(b@);
            if i < a@.len() {
                crate::rows::lemma_row(a@, i as int);
            }
            if j < b@.len() {
                crate::rows::lemma_row(b@, j as int);
            }
            assert forall|p: int| 0 <= p < a@.len() implies #[trigger] crate::rows::row_index(
                a@,
                a@[p].row.id,
            ) == p by {
                crate::rows::lemma_row(a@, p);
            }
            assert forall|p: int| 0 <= p < b@.len() implies #[trigger] crate::rows::row_index(
                b@,
                b@[p].row.id,
            ) == p by {
                crate::rows::lemma_row(b@, p);
            }
        }
        if j >= b.len() || (i < a.len() && a[i].row.id < b[j].row.id) {
            let id: i64 = a[i].row.id;
            r.push(RowChange::Delete(id));
            proof {
                lemma_applied_prefix(s, before, r@, before.len());
                lemma_deleted(s, t, i as int, j as int, a@, b@);
                if t.dom().contains(id) {
                    let q = crate::rows::row_index(b@, id);
                    assert(b@[q].row.id == id);
                    if q > j {
                        assert(b@[j as int].row.id < b@[q].row.id);
                    }
                }
            }
            i = i + 1;
        } else if i >= a.len() || b[j].row.id < a[i].row.id {
            let row = b[j].clone();
            proof {
                lemma_copy(row, b@[j as int]);
            }
            r.push(RowChange::Put(row));
            proof {
                lemma_applied_prefix(s, before, r@, before.len());
                lemma_added(s, t, i as int, j as int, a@, b@);
                let id = b@[j as int].row.id;
                if s.dom().contains(id) {
                    let p = crate::rows::row_index(a@, id);
                    assert(a@[p].row.id == id);
                    if p > i {
                        assert(a@[i as int].row.id < a@[p].row.id);
                    }
                }
            }
            j = j + 1;
        } else {
            if !same_entry(&a[i], &b[j]) {
                let row = b[j].clone();
                proof {
                    lemma_copy(row, b@[j as int]);
                }
                r.push(RowChange::Put(row));
                proof {
                    lemma_applied_prefix(s, before, r@, before.len());
                }
            }
            proof {
                lemma_both(s, t, i as int, j as int, a@, b@);
            }
            i = i + 1;
            j = j + 1;
        }
    }
    proof {
        crate::rows::lemma_rows(a@);
        crate::rows::lemma_rows(b@);
        assert(spliced(s, t, a@.len() as int, b@.len() as int, a@, b@) =~= t);
    }
    r
}

proof fn lemma_copy(c: TableRow, r: TableRow)
    requires
        c.row@ == r.row@,
        c.hidden == r.hidden,
    ensures
        c.row.id == r.row.id,
        crate::rows::entry_of(c) == crate::rows::entry_of(r),
{
    assert(c.row@.id == r.row@.id);
}

/// Where both row lists stand: below `i` and `j` everything is smaller than what
/// follows.
spec fn aligned(i: int, j: int, a: Seq<TableRow>, b: Seq<TableRow>) -> bool {
    &&& crate::rows::rows_sorted(a)
    &&& crate::rows::rows_sorted(b)
    &&& 0 <= i <= a.len()
    &&& 0 <= j <= b.len()
    &&& forall|p: int, q: int|
        #![trigger a[p], b[q]]
        0 <= p < i && j <= q < b.len() ==> a[p].row.id < b[q].row.id
    &&& forall|p: int, q: int|
        #![trigger a[p], b[q]]
        i <= p < a.len() && 0 <= q < j ==> b[q].row.id < a[p].row.id
}

proof fn lemma_deleted(s: Table, t: Table, i: int, j: int, a: Seq<TableRow>, b: Seq<TableRow>)
    requires
        s == crate::rows::table_of(a),
        t == crate::rows::table_of(b),
        aligned(i, j, a, b),
        i < a.len(),
        j < b.len() ==> a[i].row.id < b[j].row.id,
    ensures
        spliced(s, t, i + 1, j, a, b) == spliced(s, t, i, j, a, b).remove(a[i].row.id),
{
    crate::rows::lemma_rows(a);
    crate::rows::lemma_rows(b);
    crate::rows::lemma_row(a, i);
    let want = spliced(s, t, i, j, a, b).remove(a[i].row.id);
    let got = spliced(s, t, i + 1, j, a, b);
    assert forall|x: i64| got.dom().contains(x) <==> want.dom().contains(x) by {
        if t.dom().contains(x) && crate::rows::row_index(b, x) < j {
            assert(b[crate::rows::row_index(b, x)].row.id < a[i].row.id);
        }
        if s.dom().contains(x) && crate::rows::row_index(a, x) == i {
            assert(x == a[i].row.id);
        }
    }
    assert(got =~= want);
}

proof fn lemma_added(s: Table, t: Table, i: int, j: int, a: Seq<TableRow>, b: Seq<TableRow>)
    requires
        s == crate::rows::table_of(a),
        t == crate::rows::table_of(b),
        aligned(i, j, a, b),
        j < b.len(),
        i < a.len() ==> b[j].row.id < a[i].row.id,
    ensures
        spliced(s, t, i, j + 1, a, b) == spliced(s, t, i, j, a, b).insert(
            b[j].row.id,
            crate::rows::entry_of(b[j]),
        ),
{
    crate::rows::lemma_rows(a);
    crate::rows::lemma_rows(b);
    crate::rows::lemma_row(b, j);
    let want = spliced(s, t, i, j, a, b).insert(b[j].row.id, crate::rows::entry_of(b[j]));
    let got = spliced(s, t, i, j + 1, a, b);
    assert forall|x: i64| got.dom().contains(x) <==> want.dom().contains(x) by {
        if t.dom().contains(x) && crate::rows::row_index(b, x) == j {
            assert(x == b[j].row.id);
        }
    }
    assert(got =~= want);
}

proof fn lemma_both(s: Table, t: Table, i: int, j: int, a: Seq<TableRow>, b: Seq<TableRow>)
    requires
        s == crate::rows::table_of(a),
        t == crate::rows::table_of(b),
        aligned(i, j, a, b),
        i < a.len(),
        j < b.len(),
        a[i].row.id == b[j].row.id,
    ensures
        spliced(s, t, i + 1, j + 1, a, b) == spliced(s, t, i, j, a, b).insert(
            b[j].row.id,
            crate::rows::entry_of(b[j]),
        ),
        crate::rows::entry_of(a[i]) == crate::rows::entry_of(b[j]) ==> spliced(s, t, i + 1, j + 1, a, b)
            == spliced(s, t, i, j, a, b),
{
    crate::rows::lemma_rows(a);
    crate::rows::lemma_rows(b);
    crate::rows::lemma_row(a, i);
    crate::rows::lemma_row(b, j);
    let old_t = spliced(s, t, i, j, a, b);
    let want = old_t.insert(b[j].row.id, crate::rows::entry_of(b[j]));
    let got = spliced(s, t, i + 1, j + 1, a, b);
    assert forall|x: i64| got.dom().contains(x) <==> want.dom().contains(x) by {
        if t.dom().contains(x) && crate::rows::row_index(b, x) == j {
            assert(x == b[j].row.id);
        }
        if s.dom().contains(x) && crate::rows::row_index(a, x) == i {
            assert(x == a[i].row.id);
        }
    }
    assert(got =~= want);
    if crate::rows::entry_of(a[i]) == crate::rows::entry_of(b[j]) {
        assert(old_t.dom().contains(a[i].row.id));
        assert(old_t[a[i].row.id] == crate::rows::entry_of(a[i])) by {
            if t.dom().contains(a[i].row.id) && crate::rows::row_index(b, a[i].row.id) < j {
                assert(b[crate::rows::row_index(b, a[i].row.id)].row.id < a[i].row.id);
            }
        }
        assert(want =~= old_t);
    }
}

} // verus!
