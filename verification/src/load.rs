//! Flat rows in and out of the node table.

use vstd::prelude::*;
use crate::error::{StoreError, StoreErrorView};
use crate::node::{NodeKind, NodeRow, RowView, TableRow};
use crate::store::MAX_ROWS;
use crate::table::{Entry, Table, MAX_DEPTH};

verus! {

/// The views of a list of rows.
pub open spec fn row_views(s: Seq<NodeRow>) -> Seq<RowView> {
    Seq::new(s.len(), |i: int| s[i]@)
}

/// The entry of a flat row; nothing in it is hidden.
pub open spec fn row_entry(r: RowView) -> Entry {
    Entry {
        parent: r.parent_id,
        kind: r.kind,
        title: r.title,
        url: r.url,
        position: r.position,
        created: r.created,
        modified: r.modified,
        hidden: false,
    }
}

/// Some row has this id.
pub open spec fn has_id(s: Seq<RowView>, id: i64) -> bool {
    exists|i: int| 0 <= i < s.len() && (#[trigger] s[i]).id == id
}

/// Which row has this id.
pub open spec fn id_index(s: Seq<RowView>, id: i64) -> int {
    choose|i: int| 0 <= i < s.len() && (#[trigger] s[i]).id == id
}

/// The table of the rows.
pub open spec fn vault_table(s: Seq<RowView>) -> Table {
    Map::new(|id: i64| has_id(s, id), |id: i64| row_entry(s[id_index(s, id)]))
}

/// The rows list the table, ids rising.
pub open spec fn is_dump(t: Table, s: Seq<RowView>) -> bool {
    &&& forall|i: int, j: int|
        #![trigger s[i], s[j]]
        0 <= i < j < s.len() ==> s[i].id < s[j].id
    &&& forall|id: i64| has_id(s, id) <==> #[trigger] t.dom().contains(id)
    &&& forall|i: int|
        0 <= i < s.len() ==> row_entry(#[trigger] s[i]) == (Entry { hidden: false, ..t[s[i].id] })
}

/// A table is dumped to one list of rows only.
pub proof fn lemma_dump_unique(t: Table, a: Seq<RowView>, b: Seq<RowView>)
    requires
        is_dump(t, a),
        is_dump(t, b),
    ensures
        a == b,
    decreases a.len(),
{
    if a.len() == 0 {
        if b.len() > 0 {
            assert(has_id(b, b[0].id));
            assert(t.dom().contains(b[0].id));
            assert(has_id(a, b[0].id));
        }
        assert(a =~= b);
    } else {
        let x = a.last();
        assert(has_id(a, x.id));
        assert(t.dom().contains(x.id));
        assert(has_id(b, x.id));
        let y = b.last();
        assert(has_id(b, y.id));
        assert(t.dom().contains(y.id));
        assert(has_id(a, y.id));
        let i = id_index(b, x.id);
        let j = id_index(a, y.id);
        assert(b[i].id == x.id && a[j].id == y.id);
        if i < b.len() - 1 {
            assert(b[i].id < b[b.len() - 1].id);
        }
        if j < a.len() - 1 {
            assert(a[j].id < a[a.len() - 1].id);
        }
        assert(x.id == y.id);
        lemma_dump_less(t, a);
        lemma_dump_less(t, b);
        lemma_dump_unique(t.remove(x.id), a.drop_last(), b.drop_last());
        assert(row_entry(x) == row_entry(y));
        assert(a =~= a.drop_last().push(x));
        assert(b =~= b.drop_last().push(y));
    }
}

/// Every finite table can be dumped.
pub proof fn lemma_dump_exists(t: Table) -> (s: Seq<RowView>)
    requires
        t.dom().finite(),
    ensures
        is_dump(t, s),
    decreases t.dom().len(),
{
    if t.dom().len() == 0 {
        assert(t.dom() =~= Set::empty());
        Seq::empty()
    } else {
        let top = lemma_top(t.dom());
        let u = t.remove(top);
        assert(u.dom() =~= t.dom().remove(top));
        let q = lemma_dump_exists(u);
        let e = t[top];
        let x = RowView {
            id: top,
            parent_id: e.parent,
            kind: e.kind,
            title: e.title,
            url: e.url,
            position: e.position,
            created: e.created,
            modified: e.modified,
        };
        let s = q.push(x);
        assert forall|i: int| 0 <= i < q.len() implies (#[trigger] q[i]).id < top by {
            assert(has_id(q, q[i].id));
            assert(u.dom().contains(q[i].id));
        }
        assert forall|i: int, j: int|
            #![trigger s[i], s[j]]
            0 <= i < j < s.len() implies s[i].id < s[j].id by {
            if j < q.len() {
                assert(q[i].id < q[j].id);
            } else {
                assert(q[i].id < top);
            }
        }
        assert forall|id: i64| has_id(s, id) <==> #[trigger] t.dom().contains(id) by {
            if has_id(s, id) {
                let k = id_index(s, id);
                assert(s[k].id == id);
                if k < q.len() {
                    assert(q[k].id == id);
                    assert(has_id(q, id));
                    assert(u.dom().contains(id));
                }
            }
            if t.dom().contains(id) {
                if id == top {
                    assert(s[q.len() as int].id == id);
                } else {
                    assert(u.dom().contains(id));
                    assert(has_id(q, id));
                    assert(s[id_index(q, id)].id == id);
                }
            }
        }
        assert forall|i: int| 0 <= i < s.len() implies row_entry(#[trigger] s[i]) == (Entry {
            hidden: false,
            ..t[s[i].id]
        }) by {
            if i < q.len() {
                assert(row_entry(q[i]) == (Entry { hidden: false, ..u[q[i].id] }));
                assert(q[i].id < top);
            }
        }
        s
    }
}

/// The largest id of a set.
pub proof fn lemma_top(s: Set<i64>) -> (m: i64)
    requires
        s.finite(),
        s.len() > 0,
    ensures
        s.contains(m),
        forall|x: i64| s.contains(x) ==> x <= m,
    decreases s.len(),
{
    let a = s.choose();
    let q = s.remove(a);
    if q.len() == 0 {
        assert(q =~= Set::empty());
        assert forall|x: i64| s.contains(x) implies x <= a by {
            assert(!q.contains(x));
        }
        a
    } else {
        let m = lemma_top(q);
        let b = if m < a {
            a
        } else {
            m
        };
        assert forall|x: i64| s.contains(x) implies x <= b by {
            if x != a {
                assert(q.contains(x));
            }
        }
        b
    }
}

proof fn lemma_dump_less(t: Table, a: Seq<RowView>)
    requires
        is_dump(t, a),
        a.len() > 0,
    ensures
        is_dump(t.remove(a.last().id), a.drop_last()),
{
    let c = a.drop_last();
    let u = t.remove(a.last().id);
    assert forall|i: int, j: int|
        #![trigger c[i], c[j]]
        0 <= i < j < c.len() implies c[i].id < c[j].id by {
        assert(a[i].id < a[j].id);
    }
    assert forall|id: i64| has_id(c, id) <==> #[trigger] u.dom().contains(id) by {
        if has_id(c, id) {
            let k = id_index(c, id);
            assert(c[k].id == id);
            assert(a[k].id == id);
            assert(has_id(a, id));
            assert(t.dom().contains(id));
            assert(a[k].id < a[a.len() - 1].id);
        }
        if u.dom().contains(id) {
            assert(t.dom().contains(id));
            assert(has_id(a, id));
            let k = id_index(a, id);
            assert(a[k].id == id);
            assert(c[k].id == id);
        }
    }
    assert forall|i: int| 0 <= i < c.len() implies row_entry(#[trigger] c[i]) == (Entry {
        hidden: false,
        ..u[c[i].id]
    }) by {
        assert(c[i] == a[i]);
        assert(a[i].id < a[a.len() - 1].id);
        assert(row_entry(a[i]) == (Entry { hidden: false, ..t[a[i].id] }));
    }
}

/// What is wrong with row `i`, given the rows before it.
pub open spec fn row_defect(s: Seq<RowView>, i: int) -> Option<Seq<char>> {
    if s[i].parent_id is None && s[i].kind != NodeKind::Folder {
        Some("vault root must be a folder"@)
    } else if has_id(s.take(i), s[i].id) {
        Some("duplicate node id in vault"@)
    } else {
        None
    }
}

/// What is wrong with the first bad one of the first `n` rows.
pub open spec fn rows_defect(s: Seq<RowView>, n: nat) -> Option<Seq<char>>
    decreases n,
{
    if n == 0 {
        None
    } else if rows_defect(s, (n - 1) as nat) is Some {
        rows_defect(s, (n - 1) as nat)
    } else {
        row_defect(s, n - 1)
    }
}

/// How many of the first `n` rows are roots.
pub open spec fn root_count(s: Seq<RowView>, n: nat) -> nat
    decreases n,
{
    if n == 0 {
        0
    } else {
        root_count(s, (n - 1) as nat) + (if s[n - 1].parent_id is None {
            1nat
        } else {
            0nat
        })
    }
}

/// Some node of the table is out of the root's reach.
pub open spec fn has_unreachable(t: Table, root: i64) -> bool {
    exists|x: i64| #[trigger] t.dom().contains(x) && !crate::table::subtree(t, root).contains(x)
}

/// What is wrong with the rows of a vault.
pub open spec fn vault_defect(s: Seq<RowView>) -> Option<Seq<char>> {
    let t = vault_table(s);
    let root = crate::ops::root_of(t)->0;
    if rows_defect(s, s.len()) is Some {
        rows_defect(s, s.len())
    } else if root_count(s, s.len()) != 1 {
        Some("vault must have exactly one root"@)
    } else if crate::walk::level_used(t, root, (MAX_DEPTH + 1) as nat) {
        Some("vault tree is structurally invalid"@)
    } else if has_unreachable(t, root) {
        Some("vault has unreachable nodes (dangling parent or orphan cycle)"@)
    } else {
        None
    }
}

/// Why the rows cannot be loaded.
pub open spec fn load_error(s: Seq<RowView>) -> Option<StoreErrorView> {
    if s.len() > MAX_ROWS {
        Some(StoreErrorView::Sqlite("database or disk is full"@))
    } else {
        match vault_defect(s) {
            Some(m) => Some(StoreErrorView::CorruptVault(m)),
            None => None,
        }
    }
}

/// Distinct ids: no row has the id of an earlier one.
proof fn lemma_no_defect(s: Seq<RowView>, n: nat, i: int)
    requires
        n <= s.len(),
        0 <= i < n,
        rows_defect(s, n) is None,
    ensures
        row_defect(s, i) is None,
    decreases n,
{
    if i < n - 1 {
        lemma_no_defect(s, (n - 1) as nat, i);
    }
}

/// With distinct ids, each row's entry is in the table.
pub proof fn lemma_entries(s: Seq<RowView>)
    requires
        rows_defect(s, s.len()) is None,
    ensures
        forall|i: int|
            0 <= i < s.len() ==> {
                &&& vault_table(s).dom().contains((#[trigger] s[i]).id)
                &&& vault_table(s)[s[i].id] == row_entry(s[i])
            },
        forall|i: int, j: int|
            #![trigger s[i], s[j]]
            0 <= i < j < s.len() ==> s[i].id != s[j].id,
{
    assert forall|i: int, j: int|
        #![trigger s[i], s[j]]
        0 <= i < j < s.len() implies s[i].id != s[j].id by {
        lemma_no_defect(s, s.len(), j);
        if s[i].id == s[j].id {
            assert(s.take(j)[i].id == s[j].id);
            assert(has_id(s.take(j), s[j].id));
        }
    }
    assert forall|i: int| 0 <= i < s.len() implies {
        &&& vault_table(s).dom().contains((#[trigger] s[i]).id)
        &&& vault_table(s)[s[i].id] == row_entry(s[i])
    } by {
        assert(has_id(s, s[i].id));
        let k = id_index(s, s[i].id);
        assert(0 <= k < s.len() && s[k].id == s[i].id);
        if k < i {
            assert(s[k].id != s[i].id);
        } else if i < k {
            assert(s[i].id != s[k].id);
        }
    }
}

proof fn lemma_roots_counted(s: Seq<RowView>, n: nat, i: int)
    requires
        n <= s.len(),
        0 <= i < n,
        s[i].parent_id is None,
    ensures
        root_count(s, n) >= 1,
    decreases n,
{
    if i < n - 1 {
        lemma_roots_counted(s, (n - 1) as nat, i);
    }
}

proof fn lemma_two_roots(s: Seq<RowView>, n: nat, i: int, j: int)
    requires
        n <= s.len(),
        0 <= i < j < n,
        s[i].parent_id is None,
        s[j].parent_id is None,
    ensures
        root_count(s, n) >= 2,
    decreases n,
{
    if j < n - 1 {
        lemma_two_roots(s, (n - 1) as nat, i, j);
    } else {
        lemma_roots_counted(s, (n - 1) as nat, i);
    }
}

proof fn lemma_some_root(s: Seq<RowView>, n: nat) -> (i: int)
    requires
        n <= s.len(),
        root_count(s, n) >= 1,
    ensures
        0 <= i < n,
        s[i].parent_id is None,
    decreases n,
{
    if s[n - 1].parent_id is None {
        n - 1
    } else {
        lemma_some_root(s, (n - 1) as nat)
    }
}

/// Rows with exactly one root have it as the root of their table.
pub proof fn lemma_one_root(s: Seq<RowView>)
    requires
        rows_defect(s, s.len()) is None,
        root_count(s, s.len()) == 1,
    ensures
        crate::ops::root_of(vault_table(s)) is Some,
        ({
            let t = vault_table(s);
            let r = crate::ops::root_of(t)->0;
            &&& t.dom().contains(r)
            &&& t[r].parent is None
            &&& t[r].kind == NodeKind::Folder
            &&& forall|x: i64| #[trigger] t.dom().contains(x) && t[x].parent is None ==> x == r
        }),
{
    let t = vault_table(s);
    lemma_entries(s);
    let i = lemma_some_root(s, s.len());
    let r = s[i].id;
    lemma_no_defect(s, s.len(), i);
    assert forall|x: i64| #[trigger] t.dom().contains(x) && t[x].parent is None implies x == r by {
        let k = id_index(s, x);
        assert(0 <= k < s.len() && s[k].id == x);
        if k < i {
            lemma_two_roots(s, s.len(), k, i);
        } else if i < k {
            lemma_two_roots(s, s.len(), i, k);
        }
    }
    assert(crate::ops::is_first_root(t, r));
    assert forall|q: i64| crate::ops::is_first_root(t, q) implies q == r by {
        assert(crate::table::sits_under(t, None, q));
    }
}

/// A bad row among the first is why the rows cannot be loaded.
proof fn lemma_bad_row(s: Seq<RowView>, i: int)
    requires
        0 <= i < s.len() <= MAX_ROWS,
        rows_defect(s, i as nat) is None,
        row_defect(s, i) is Some,
    ensures
        rows_defect(s, s.len()) is Some,
        load_error(s) == Some(StoreErrorView::CorruptVault(row_defect(s, i)->0)),
{
    assert(rows_defect(s, (i + 1) as nat) == row_defect(s, i));
    lemma_defect_stays(s, (i + 1) as nat, s.len());
}

/// Adds row `i` to the rows before it, unless it is bad.
fn add_row(v: &mut Vec<TableRow>, rows: &[NodeRow], i: usize) -> (r: Result<(), StoreError>)
    requires
        i < rows@.len() <= MAX_ROWS,
        crate::rows::rows_sorted(old(v)@),
        crate::rows::table_of(old(v)@) == vault_table(row_views(rows@).take(i as int)),
        rows_defect(row_views(rows@), i as nat) is None,
    ensures
        match r {
            Ok(_) => {
                &&& crate::rows::rows_sorted(final(v)@)
                &&& final(v)@.len() == old(v)@.len() + 1
                &&& crate::rows::table_of(final(v)@) == vault_table(row_views(rows@).take(i + 1))
                &&& rows_defect(row_views(rows@), (i + 1) as nat) is None
            },
            Err(e) => {
                &&& rows_defect(row_views(rows@), rows@.len()) is Some
                &&& load_error(row_views(rows@)) == Some(e@)
            },
        },
{
    let ghost s = row_views(rows@);
    let here = &rows[i];
    assert(s[i as int] == here@);
    if here.parent_id.is_none() && here.kind != NodeKind::Folder {
        proof {
            lemma_bad_row(s, i as int);
        }
        return Err(StoreError::CorruptVault("vault root must be a folder"));
    }
    let at: usize = match crate::rows::find_row(v, here.id) {
        Ok(_) => {
            proof {
                lemma_bad_row(s, i as int);
            }
            return Err(StoreError::CorruptVault("duplicate node id in vault"));
        },
        Err(at) => at,
    };
    let row = TableRow { row: here.clone(), hidden: false };
    proof {
        assert(row.row@ == here@);
        assert(row.row@.id == here@.id);
        crate::rows::lemma_row_insert(v@, at as int, row);
        assert(crate::rows::entry_of(row) == row_entry(s[i as int]));
        lemma_take_push(s, i as int);
    }
    v.insert(at, row);
    Ok(())
}

/// The rows in the order of their ids, unless a row is bad by itself or there is
/// not exactly one root.
pub fn sorted_rows(rows: &[NodeRow]) -> (r: Result<Vec<TableRow>, StoreError>)
    ensures
        match r {
            Ok(v) => {
                &&& crate::rows::rows_sorted(v@)
                &&& v@.len() == rows@.len() <= MAX_ROWS
                &&& crate::rows::table_of(v@) == vault_table(row_views(rows@))
                &&& rows_defect(row_views(rows@), rows@.len()) is None
                &&& root_count(row_views(rows@), rows@.len()) == 1
            },
            Err(e) => load_error(row_views(rows@)) == Some(e@) && (rows@.len() > MAX_ROWS || rows_defect(
                row_views(rows@),
                rows@.len(),
            ) is Some || root_count(row_views(rows@), rows@.len()) != 1),
        },
{
    let ghost s = row_views(rows@);
    if rows.len() as u64 > MAX_ROWS {
        return Err(StoreError::Sqlite("database or disk is full".to_owned()));
    }
    let mut v: Vec<TableRow> = Vec::new();
    let mut roots: u64 = 0;
    let mut i: usize = 0;
    proof {
        assert(vault_table(s.take(0)) =~= Map::empty());
        assert(crate::rows::table_of(v@) =~= Map::empty());
    }
    while i < rows.len()
        invariant
            s == row_views(rows@),
            rows@.len() <= MAX_ROWS,
            i <= rows@.len(),
            crate::rows::rows_sorted(v@),
            v@.len() == i,
            crate::rows::table_of(v@) == vault_table(s.take(i as int)),
            rows_defect(s, i as nat) is None,
            roots == root_count(s, i as nat),
            roots <= i,
        decreases rows@.len() - i,
    {
        match add_row(&mut v, rows, i) {
            Err(e) => {
                return Err(e);
            },
            Ok(_) => {},
        }
        if rows[i].parent_id.is_none() {
            roots = roots + 1;
        }
        i = i + 1;
    }
    proof {
        assert(s.take(s.len() as int) =~= s);
    }
    if roots != 1 {
        return Err(StoreError::CorruptVault("vault must have exactly one root"));
    }
    Ok(v)
}

/// The first bad row decides, whatever follows it.
proof fn lemma_defect_stays(s: Seq<RowView>, a: nat, b: nat)
    requires
        a <= b,
        rows_defect(s, a) is Some,
    ensures
        rows_defect(s, b) == rows_defect(s, a),
    decreases b,
{
    if a < b {
        lemma_defect_stays(s, a, (b - 1) as nat);
    }
}

/// One more row adds its entry.
proof fn lemma_take_push(s: Seq<RowView>, i: int)
    requires
        0 <= i < s.len(),
        rows_defect(s, i as nat) is None,
        !has_id(s.take(i), s[i].id),
    ensures
        vault_table(s.take(i + 1)) == vault_table(s.take(i)).insert(s[i].id, row_entry(s[i])),
{
    let a = s.take(i);
    let b = s.take(i + 1);
    assert forall|id: i64| has_id(b, id) <==> (has_id(a, id) || id == s[i].id) by {
        if has_id(a, id) {
            assert(b[id_index(a, id)].id == id);
        }
        if id == s[i].id {
            assert(b[i].id == id);
        }
        if has_id(b, id) {
            let k = id_index(b, id);
            assert(b[k].id == id);
            if k < i {
                assert(a[k].id == id);
            }
        }
    }
    assert forall|id: i64| has_id(b, id) implies vault_table(b)[id] == vault_table(a).insert(
        s[i].id,
        row_entry(s[i]),
    )[id] by {
        let k = id_index(b, id);
        assert(0 <= k < b.len() && b[k].id == id);
        if k < i {
            assert(a[k].id == id);
            assert(has_id(a, id));
            assert(id != s[i].id);
            let m = id_index(a, id);
            assert(a[m].id == id);
            if m < k {
                lemma_no_defect(s, i as nat, k);
                assert(s.take(k)[m].id == s[k].id);
            } else if k < m {
                lemma_no_defect(s, i as nat, m);
                assert(s.take(m)[k].id == s[m].id);
            }
        }
    }
    assert(vault_table(b) =~= vault_table(a).insert(s[i].id, row_entry(s[i])));
}

/// Every row without its `hidden` mark.
pub fn flat_rows(rows: &Vec<TableRow>) -> (r: Vec<NodeRow>)
    requires
        crate::rows::rows_sorted(rows@),
    ensures
        is_dump(crate::rows::table_of(rows@), row_views(r@)),
{
    let mut r: Vec<NodeRow> = Vec::new();
    let mut i: usize = 0;
    while i < rows.len()
        invariant
            i <= rows@.len(),
            r@.len() == i,
            forall|k: int| 0 <= k < i ==> (#[trigger] r@[k])@ == rows@[k].row@,
        decreases rows@.len() - i,
    {
        r.push(rows[i].row.clone());
        i = i + 1;
    }
    proof {
        let t = crate::rows::table_of(rows@);
        let s = row_views(r@);
        crate::rows::lemma_rows(rows@);
        assert forall|k: int| 0 <= k < s.len() implies (#[trigger] s[k]) == rows@[k].row@ by {
            assert(r@[k]@ == rows@[k].row@);
        }
        assert forall|i: int, j: int|
            #![trigger s[i], s[j]]
            0 <= i < j < s.len() implies s[i].id < s[j].id by {
            assert(rows@[i].row.id < rows@[j].row.id);
        }
        assert forall|id: i64| has_id(s, id) <==> #[trigger] t.dom().contains(id) by {
            if t.dom().contains(id) {
                assert(s[crate::rows::row_index(rows@, id)].id == id);
            }
            if has_id(s, id) {
                let k = id_index(s, id);
                assert(s[k].id == id);
                assert(rows@[k].row.id == id);
            }
        }
        assert forall|k: int| 0 <= k < s.len() implies row_entry(#[trigger] s[k]) == (Entry {
            hidden: false,
            ..t[s[k].id]
        }) by {
            assert(s[k] == rows@[k].row@);
            assert(t[rows@[k].row.id] == crate::rows::entry_of(rows@[k]));
        }
    }
    r
}

/// No two rows share their id.
pub open spec fn ids_differ(s: Seq<TableRow>) -> bool {
    forall|i: int, j: int|
        #![trigger s[i], s[j]]
        0 <= i < j < s.len() ==> s[i].row.id != s[j].row.id
}

/// The rows in the order of their ids; `None` if two share an id.
pub fn by_id(rows: &Vec<TableRow>) -> (r: Option<Vec<TableRow>>)
    ensures
        match r {
            Some(v) => {
                &&& ids_differ(rows@)
                &&& crate::rows::rows_sorted(v@)
                &&& v@.len() == rows@.len()
                &&& crate::rows::table_of(v@) == crate::rows::table_of(rows@)
            },
            None => !ids_differ(rows@),
        },
{
    let mut v: Vec<TableRow> = Vec::new();
    let mut i: usize = 0;
    while i < rows.len()
        invariant
            i <= rows@.len(),
            v@.len() == i,
            crate::rows::rows_sorted(v@),
            forall|k: int|
                0 <= k < i ==> {
                    &&& crate::rows::table_of(v@).dom().contains((#[trigger] rows@[k]).row.id)
                    &&& crate::rows::table_of(v@)[rows@[k].row.id] == crate::rows::entry_of(rows@[k])
                },
            forall|x: i64| #[trigger]
                crate::rows::table_of(v@).dom().contains(x) ==> exists|k: int|
                    0 <= k < i && (#[trigger] rows@[k]).row.id == x,
            forall|a: int, b: int|
                #![trigger rows@[a], rows@[b]]
                0 <= a < b < i ==> rows@[a].row.id != rows@[b].row.id,
        decreases rows@.len() - i,
    {
        let ghost t = crate::rows::table_of(v@);
        let at: usize = match crate::rows::find_row(&v, rows[i].row.id) {
            Ok(_) => {
                proof {
                    let k = choose|k: int|
                        0 <= k < i && (#[trigger] rows@[k]).row.id == rows@[i as int].row.id;
                    assert(rows@[k].row.id == rows@[i as int].row.id);
                }
                return None;
            },
            Err(at) => at,
        };
        let row = rows[i].clone();
        proof {
            assert(row.row@.id == rows@[i as int].row@.id);
            assert(row.row@ == rows@[i as int].row@);
            assert(crate::rows::entry_of(row) == crate::rows::entry_of(rows@[i as int]));
            crate::rows::lemma_row_insert(v@, at as int, row);
            assert forall|k: int| 0 <= k < i implies (#[trigger] rows@[k]).row.id
                != rows@[i as int].row.id by {
                assert(t.dom().contains(rows@[k].row.id));
            }
            assert forall|x: i64| #[trigger]
                t.insert(row.row.id, crate::rows::entry_of(row)).dom().contains(
                    x,
                ) implies exists|k: int| 0 <= k < i + 1 && (#[trigger] rows@[k]).row.id == x by {
                if x == row.row.id {
                    assert(rows@[i as int].row.id == x);
                } else {
                    assert(t.dom().contains(x));
                    let k = choose|k: int| 0 <= k < i && (#[trigger] rows@[k]).row.id == x;
                    assert(rows@[k].row.id == x);
                }
            }
        }
        v.insert(at, row);
        i = i + 1;
    }
    proof {
        let got = crate::rows::table_of(v@);
        let want = crate::rows::table_of(rows@);
        assert forall|x: i64| got.dom().contains(x) <==> want.dom().contains(x) by {
            if want.dom().contains(x) {
                let k = crate::rows::row_index(rows@, x);
                assert(rows@[k].row.id == x);
            }
        }
        assert forall|x: i64| #[trigger] want.dom().contains(x) implies got[x] == want[x] by {
            let k = crate::rows::row_index(rows@, x);
            assert(rows@[k].row.id == x);
        }
        assert(got =~= want);
    }
    Some(v)
}

} // verus!
