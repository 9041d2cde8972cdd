//! What the operations do to the order of children: they keep it, and they keep it
//! numbered without gaps.

use vstd::prelude::*;
use crate::node::NodeKind;
use crate::table::Table;
use crate::store::MAX_ROWS;

verus! {

/// Two tables have the same nodes under `p`, at the same positions.
spec fn same_kids(a: Table, b: Table, p: i64) -> bool {
    forall|x: i64|
        #![trigger crate::table::sits_under(a, Some(p), x)]
        #![trigger crate::table::sits_under(b, Some(p), x)]
        {
            &&& crate::table::sits_under(a, Some(p), x) == crate::table::sits_under(b, Some(p), x)
            &&& crate::table::sits_under(a, Some(p), x) ==> a[x].position == b[x].position
        }
}

proof fn lemma_same_kids(a: Table, b: Table, p: i64, x: i64)
    requires
        same_kids(a, b, p),
        crate::table::sits_under(a, Some(p), x),
    ensures
        crate::table::rank(a, Some(p), x) == crate::table::rank(b, Some(p), x),
{
    let s = Set::new(|y: i64| crate::table::sits_under(a, Some(p), y) && crate::table::before(a, y, x));
    let q = Set::new(|y: i64| crate::table::sits_under(b, Some(p), y) && crate::table::before(b, y, x));
    assert(s =~= q) by {
        assert forall|y: i64| s.contains(y) <==> q.contains(y) by {
            assert(crate::table::sits_under(a, Some(p), y) == crate::table::sits_under(
                b,
                Some(p),
                y,
            ));
        }
    }
}

/// A table whose ids under `p` are listed by `s` with their indices as positions is
/// in that order.
proof fn lemma_listed_order(t: Table, p: i64, s: Seq<i64>)
    requires
        s.no_duplicates(),
        forall|x: i64| s.contains(x) <==> crate::table::sits_under(t, Some(p), x),
        forall|k: int| 0 <= k < s.len() ==> t[#[trigger] s[k]].position == k,
    ensures
        crate::table::in_order(t, Some(p), s),
        forall|x: i64| #[trigger]
            crate::table::sits_under(t, Some(p), x) ==> t[x].position == crate::table::rank(
                t,
                Some(p),
                x,
            ),
{
    assert forall|x: i64| #[trigger] crate::table::sits_under(t, Some(p), x) implies t[x].position
        == crate::table::rank(t, Some(p), x) by {
        assert(s.contains(x));
        let k = choose|k: int| 0 <= k < s.len() && s[k] == x;
        crate::table::lemma_rank_is_index(t, Some(p), s, k);
    }
}

/// Renumbering keeps the order of the children and closes the gaps.
pub proof fn lemma_reindexed(t: Table, p: i64, s: Seq<i64>)
    requires
        t.dom().finite(),
        t.dom().len() <= MAX_ROWS,
        crate::table::in_order(t, Some(p), s),
    ensures
        crate::table::in_order(crate::table::reindexed(t, p), Some(p), s),
        forall|k: int|
            0 <= k < s.len() ==> crate::table::reindexed(t, p)[#[trigger] s[k]].position == k,
{
    let u = crate::table::reindexed(t, p);
    crate::table::lemma_order_len(t, Some(p), s);
    let kids = crate::table::kids(t, Some(p));
    assert(kids.subset_of(t.dom()));
    vstd::set_lib::lemma_len_subset(kids, t.dom());
    assert forall|k: int| 0 <= k < s.len() implies u[#[trigger] s[k]].position == k by {
        assert(s.contains(s[k]));
        crate::table::lemma_rank_is_index(t, Some(p), s, k);
    }
    assert forall|x: i64| s.contains(x) <==> crate::table::sits_under(u, Some(p), x) by {
        assert(s.contains(x) <==> crate::table::sits_under(t, Some(p), x));
    }
    lemma_listed_order(u, p, s);
}

/// The next position in a folder numbered without gaps is the number of children.
pub proof fn lemma_next_is_count(t: Table, p: i64)
    requires
        t.dom().finite(),
        t.dom().len() <= MAX_ROWS,
        crate::laws::contiguous(t),
    ensures
        crate::ops::next_position(t, p) == crate::table::kids(t, Some(p)).len(),
        !crate::ops::positions_exhausted(t, p),
        forall|x: i64| #[trigger]
            crate::table::sits_under(t, Some(p), x) ==> t[x].position < crate::table::kids(
                t,
                Some(p),
            ).len(),
{
    let s = crate::table::lemma_order_exists(t, Some(p));
    let kids = crate::table::kids(t, Some(p));
    assert(kids.subset_of(t.dom()));
    vstd::set_lib::lemma_len_subset(kids, t.dom());
    assert forall|x: i64| #[trigger] crate::table::sits_under(t, Some(p), x) implies t[x].position
        < kids.len() by {
        assert(s.contains(x));
        let k = choose|k: int| 0 <= k < s.len() && s[k] == x;
        crate::table::lemma_rank_is_index(t, Some(p), s, k);
    }
    if s.len() == 0 {
        assert forall|x: i64| !crate::table::sits_under(t, Some(p), x) by {
            assert(!s.contains(x));
        }
    } else {
        let last = s[s.len() - 1];
        assert(s.contains(last));
        assert(crate::table::sits_under(t, Some(p), last));
        crate::table::lemma_rank_is_index(t, Some(p), s, s.len() - 1);
    }
    assert(crate::ops::is_next_position(t, p, kids.len() as i64));
    crate::ops::lemma_next_position(t, p, kids.len() as i64);
}

/// Creating a node keeps the numbering without gaps; the node comes last.
pub proof fn lemma_create_keeps_order(
    t: Table,
    parent: Option<i64>,
    id: i64,
    kind: NodeKind,
    title: Seq<char>,
    url: Option<Seq<char>>,
    now: i64,
)
    requires
        t.dom().finite(),
        crate::laws::contiguous(t),
        crate::ops::place_error(t, parent) is None,
        crate::ops::is_new_id(t, id),
    ensures
        ({
            let u = crate::ops::with_new(t, parent, id, kind, title, url, now);
            &&& crate::laws::contiguous(u)
            &&& u[id].position == crate::table::kids(t, crate::ops::target(t, parent)).len()
        }),
{
    let u = crate::ops::with_new(t, parent, id, kind, title, url, now);
    let p = crate::ops::target(t, parent)->0;
    lemma_next_is_count(t, p);
    lemma_appended(t, u, p, id);
}

/// A leaf appended under `p` keeps the numbering without gaps.
pub proof fn lemma_appended(t: Table, u: Table, p: i64, id: i64)
    requires
        t.dom().finite(),
        t.dom().len() <= MAX_ROWS,
        crate::laws::contiguous(t),
        !t.dom().contains(id),
        u == t.insert(id, u[id]),
        u[id].parent == Some(p),
        u[id].position == crate::table::kids(t, Some(p)).len(),
    ensures
        crate::laws::contiguous(u),
{
    let s = crate::table::lemma_order_exists(t, Some(p));
    let q = s.push(id);
    crate::table::lemma_order_len(t, Some(p), s);
    assert forall|x: i64| q.contains(x) <==> crate::table::sits_under(u, Some(p), x) by {
        if x == id {
            assert(q[s.len() as int] == id);
        } else {
            assert(s.contains(x) <==> crate::table::sits_under(t, Some(p), x));
            if s.contains(x) {
                let k = choose|k: int| 0 <= k < s.len() && s[k] == x;
                assert(q[k] == x);
            }
            if q.contains(x) {
                let k = choose|k: int| 0 <= k < q.len() && q[k] == x;
                assert(s[k] == x);
            }
        }
    }
    assert forall|k: int| 0 <= k < q.len() implies u[#[trigger] q[k]].position == k by {
        if k < s.len() {
            assert(s.contains(s[k]));
            assert(crate::table::sits_under(t, Some(p), s[k]));
            crate::table::lemma_rank_is_index(t, Some(p), s, k);
        }
    }
    assert(q.no_duplicates()) by {
        assert forall|i: int, j: int| 0 <= i < q.len() && 0 <= j < q.len() && i != j implies q[i]
            != q[j] by {
            if i < s.len() {
                assert(s.contains(s[i]));
            }
            if j < s.len() {
                assert(s.contains(s[j]));
            }
        }
    }
    lemma_listed_order(u, p, q);
    assert forall|x: i64, z: i64| #[trigger] crate::table::sits_under(u, Some(z), x) implies u[x].position
        == crate::table::rank(u, Some(z), x) by {
        if z != p {
            assert(crate::table::sits_under(t, Some(z), x));
            assert(same_kids(t, u, z)) by {
                assert forall|y: i64|
                    {
                        &&& crate::table::sits_under(t, Some(z), y) == crate::table::sits_under(
                            u,
                            Some(z),
                            y,
                        )
                        &&& crate::table::sits_under(t, Some(z), y) ==> t[y].position
                            == u[y].position
                    } by {}
            }
            lemma_same_kids(t, u, z, x);
        }
    }
}

/// Renaming a node keeps the numbering.
pub proof fn lemma_rename_keeps_order(t: Table, id: i64, title: Seq<char>, now: i64)
    requires
        crate::laws::contiguous(t),
        crate::ops::node_error(t, id) is None,
    ensures
        crate::laws::contiguous(crate::ops::renamed(t, id, title, now)),
{
    let u = crate::ops::renamed(t, id, title, now);
    assert forall|x: i64, z: i64| #[trigger] crate::table::sits_under(u, Some(z), x) implies u[x].position
        == crate::table::rank(u, Some(z), x) by {
        assert(crate::table::sits_under(t, Some(z), x));
        lemma_same_kids(t, u, z, x);
    }
}

/// Closing the gaps under `p` keeps the numbering everywhere else.
proof fn lemma_closed(t: Table, p: i64)
    requires
        t.dom().finite(),
        t.dom().len() <= MAX_ROWS,
        forall|x: i64, z: i64| #[trigger]
            crate::table::sits_under(t, Some(z), x) && z != p ==> t[x].position
                == crate::table::rank(t, Some(z), x),
    ensures
        crate::laws::contiguous(crate::table::reindexed(t, p)),
{
    let u = crate::table::reindexed(t, p);
    let s = crate::table::lemma_order_exists(t, Some(p));
    lemma_reindexed(t, p, s);
    assert forall|x: i64, z: i64| #[trigger] crate::table::sits_under(u, Some(z), x) implies u[x].position
        == crate::table::rank(u, Some(z), x) by {
        assert(crate::table::sits_under(t, Some(z), x));
        if z == p {
            assert(s.contains(x));
            let k = choose|k: int| 0 <= k < s.len() && s[k] == x;
            crate::table::lemma_rank_is_index(u, Some(p), s, k);
        } else {
            lemma_same_kids(t, u, z, x);
        }
    }
}

/// Deleting a node keeps the numbering without gaps.
pub proof fn lemma_delete_keeps_order(t: Table, r: i64, id: i64)
    requires
        crate::laws::sound(t, r),
        t.dom().len() <= MAX_ROWS,
        crate::laws::contiguous(t),
        crate::ops::node_error(t, id) is None,
    ensures
        crate::laws::contiguous(crate::ops::deleted(t, id)),
{
    let gone = crate::table::subtree(t, id);
    let u = t.remove_keys(gone);
    let p = t[id].parent->0;
    assert(u.dom() =~= t.dom().difference(gone));
    vstd::set_lib::lemma_len_subset(u.dom(), t.dom());
    assert forall|x: i64, z: i64| #[trigger]
        crate::table::sits_under(u, Some(z), x) && z != p implies u[x].position
        == crate::table::rank(u, Some(z), x) by {
        assert(crate::table::sits_under(t, Some(z), x));
        assert(same_kids(t, u, z)) by {
            assert forall|y: i64|
                {
                    &&& crate::table::sits_under(t, Some(z), y) == crate::table::sits_under(
                        u,
                        Some(z),
                        y,
                    )
                    &&& crate::table::sits_under(t, Some(z), y) ==> t[y].position == u[y].position
                } by {
                if crate::table::sits_under(t, Some(z), y) && gone.contains(y) {
                    let k = choose|k: nat| crate::table::up(t, y, k) == Some(id);
                    if k > 0 {
                        crate::table::lemma_up_front(t, y, (k - 1) as nat);
                        crate::table::lemma_up_front(t, x, (k - 1) as nat);
                        assert(crate::table::up(t, x, k) == Some(id));
                        assert(gone.contains(x));
                    }
                }
            }
        }
        lemma_same_kids(t, u, z, x);
    }
    lemma_closed(u, p);
}

/// The children of `under` after `id` was placed among them: the others as they
/// were, and `id` at its index.
pub proof fn lemma_placed_order(t: Table, id: i64, under: i64, index: int, now: i64, sibs: Seq<i64>)
    requires
        t.dom().finite(),
        t.dom().len() <= MAX_ROWS,
        t.dom().contains(id),
        crate::table::in_order(t.remove(id), Some(under), sibs),
        0 <= index <= sibs.len(),
    ensures
        crate::table::in_order(
            crate::ops::placed(t, id, under, index, now),
            Some(under),
            sibs.insert(index, id),
        ),
        forall|k: int|
            0 <= k <= sibs.len() ==> crate::ops::placed(t, id, under, index, now)[#[trigger] sibs.insert(
                index,
                id,
            )[k]].position == k,
{
    let rest = t.remove(id);
    let u = crate::ops::placed(t, id, under, index, now);
    let all = sibs.insert(index, id);
    crate::table::lemma_order_len(rest, Some(under), sibs);
    let kids = crate::table::kids(rest, Some(under));
    assert(kids.subset_of(t.dom()));
    vstd::set_lib::lemma_len_subset(kids, t.dom());
    assert forall|k: int| 0 <= k < all.len() implies #[trigger] all[k] == (if k < index {
        sibs[k]
    } else if k == index {
        id
    } else {
        sibs[k - 1]
    }) by {}
    assert forall|k: int| 0 <= k < all.len() implies u[#[trigger] all[k]].position == k by {
        if k != index {
            let m = if k < index {
                k
            } else {
                k - 1
            };
            assert(sibs.contains(sibs[m]));
            assert(crate::table::sits_under(rest, Some(under), sibs[m]));
            crate::table::lemma_rank_is_index(rest, Some(under), sibs, m);
        }
    }
    assert forall|x: i64| all.contains(x) <==> crate::table::sits_under(u, Some(under), x) by {
        assert(sibs.contains(x) <==> crate::table::sits_under(rest, Some(under), x));
        if x == id {
            assert(all[index] == id);
        } else {
            if sibs.contains(x) {
                let k = choose|k: int| 0 <= k < sibs.len() && sibs[k] == x;
                assert(all[if k < index {
                    k
                } else {
                    k + 1
                }] == x);
            }
            if all.contains(x) {
                let k = choose|k: int| 0 <= k < all.len() && all[k] == x;
                assert(sibs[if k < index {
                    k
                } else {
                    k - 1
                }] == x);
            }
        }
    }
    assert(all.no_duplicates()) by {
        assert forall|i: int, j: int| 0 <= i < all.len() && 0 <= j < all.len() && i != j implies all[i]
            != all[j] by {
            assert(u[all[i]].position == i);
            assert(u[all[j]].position == j);
        }
    }
    lemma_listed_order(u, under, all);
}

/// Moving a node keeps the numbering without gaps, in the folder that it leaves and
/// in the one that it comes to. There it stands at the index asked for, among
/// the other children in the order that they had.
pub proof fn lemma_move_keeps_order(
    t: Table,
    r: i64,
    id: i64,
    under: i64,
    position: Option<i64>,
    now: i64,
    sibs: Seq<i64>,
)
    requires
        crate::laws::sound(t, r),
        t.dom().len() <= MAX_ROWS,
        crate::laws::contiguous(t),
        crate::ops::move_error(t, id, under) is None,
        crate::table::in_order(t.remove(id), Some(under), sibs),
    ensures
        crate::laws::contiguous(crate::ops::moved(t, id, under, position, now)),
        crate::table::in_order(
            crate::ops::moved(t, id, under, position, now),
            Some(under),
            sibs.insert(crate::ops::insert_index(position, sibs.len()), id),
        ),
{
    let rest = t.remove(id);
    let from = t[id].parent->0;
    crate::table::lemma_order_len(rest, Some(under), sibs);
    let index = crate::ops::insert_index(position, sibs.len());
    let u = crate::ops::placed(t, id, under, index, now);
    let v = crate::ops::moved(t, id, under, position, now);
    let all = sibs.insert(index, id);
    lemma_placed_order(t, id, under, index, now, sibs);
    assert(u.dom() =~= t.dom());
    assert forall|x: i64, z: i64| #[trigger]
        crate::table::sits_under(u, Some(z), x) && (z != from || z == under) implies u[x].position
        == crate::table::rank(u, Some(z), x) by {
        if z == under {
            assert(all.contains(x));
            let k = choose|k: int| 0 <= k < all.len() && all[k] == x;
            crate::table::lemma_rank_is_index(u, Some(under), all, k);
        } else {
            assert(crate::table::sits_under(t, Some(z), x));
            lemma_same_kids(t, u, z, x);
        }
    }
    if from == under {
        assert(v == u);
    } else {
        lemma_closed(u, from);
        assert(same_kids(u, v, under));
        assert forall|i: int, j: int|
            #![trigger all[i], all[j]]
            0 <= i < j < all.len() implies crate::table::before(v, all[i], all[j]) by {
            assert(all.contains(all[i]) && all.contains(all[j]));
            assert(crate::table::sits_under(u, Some(under), all[i]));
            assert(crate::table::sits_under(u, Some(under), all[j]));
        }
        assert forall|x: i64| all.contains(x) <==> crate::table::sits_under(v, Some(under), x) by {
            assert(crate::table::sits_under(u, Some(under), x) == crate::table::sits_under(
                v,
                Some(under),
                x,
            ));
        }
    }
}

/// Deleting a node that was just created gives back the table from before.
pub proof fn lemma_delete_undoes_create(
    t: Table,
    r: i64,
    parent: Option<i64>,
    id: i64,
    kind: NodeKind,
    title: Seq<char>,
    url: Option<Seq<char>>,
    now: i64,
)
    requires
        crate::laws::sound(t, r),
        t.dom().len() <= MAX_ROWS,
        crate::laws::contiguous(t),
        crate::ops::place_error(t, parent) is None,
        crate::ops::is_new_id(t, id),
    ensures
        ({
            let u = crate::ops::with_new(t, parent, id, kind, title, url, now);
            &&& crate::ops::node_error(u, id) is None
            &&& crate::table::subtree(u, id).len() == 1
            &&& crate::ops::deleted(u, id) == t
        }),
{
    let u = crate::ops::with_new(t, parent, id, kind, title, url, now);
    let p = crate::ops::target(t, parent)->0;
    let below = crate::table::subtree(u, id);
    assert(below =~= set![id]) by {
        assert(crate::table::up(u, id, 0) == Some(id));
        assert forall|x: i64| below.contains(x) implies x == id by {
            let k = choose|k: nat| crate::table::up(u, x, k) == Some(id);
            if k > 0 {
                let y = crate::table::up(u, x, (k - 1) as nat)->0;
                assert(crate::table::parent_in(u, y) == Some(id));
                assert(t.dom().contains(p));
                assert(y != id);
                assert(t.dom().contains(y));
            }
        }
    }
    assert(u.remove_keys(below) =~= t);
    assert(crate::table::reindexed(t, p) =~= t) by {
        assert forall|x: i64| t.dom().contains(x) implies crate::table::reindexed(t, p)[x] == t[x] by {
            if crate::table::sits_under(t, Some(p), x) {
                assert(t[x].position == crate::table::rank(t, Some(p), x));
            }
        }
    }
}

} // verus!
