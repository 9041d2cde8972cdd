//! What every operation keeps: one tree under one root folder, bounded in depth,
//! with the children of each folder numbered without gaps.

use vstd::prelude::*;
use crate::node::{NodeKind, RowView};
use crate::table::{Entry, Table, MAX_DEPTH};
use crate::store::MAX_ROWS;

verus! {

/// Every node but the root has its parent in the table, and that is a folder.
pub open spec fn parents_ok(t: Table, r: i64) -> bool {
    forall|x: i64| #[trigger]
        t.dom().contains(x) ==> match t[x].parent {
            None => x == r,
            Some(p) => t.dom().contains(p) && t[p].kind == NodeKind::Folder,
        }
}

/// Every node reaches the root within the allowed depth.
pub open spec fn reaches(t: Table, r: i64) -> bool {
    forall|x: i64| #[trigger]
        t.dom().contains(x) ==> exists|k: nat|
            k <= MAX_DEPTH && #[trigger] crate::table::up(t, x, k) == Some(r)
}

/// The table is one tree under the folder `r`: no orphans, no cycles, nothing too
/// deep.
pub open spec fn sound(t: Table, r: i64) -> bool {
    &&& t.dom().finite()
    &&& t.dom().contains(r)
    &&& t[r].parent is None
    &&& t[r].kind == NodeKind::Folder
    &&& parents_ok(t, r)
    &&& reaches(t, r)
}

/// The children of every folder are numbered 0, 1, 2, ... in sibling order.
pub open spec fn contiguous(t: Table) -> bool {
    forall|x: i64, p: i64| #[trigger]
        crate::table::sits_under(t, Some(p), x) ==> t[x].position == crate::table::rank(
            t,
            Some(p),
            x,
        )
}

/// A chain in a sound table stays in it.
pub proof fn lemma_chain_in(t: Table, r: i64, x: i64, k: nat)
    requires
        sound(t, r),
        t.dom().contains(x),
        crate::table::up(t, x, k) is Some,
    ensures
        t.dom().contains(crate::table::up(t, x, k)->0),
    decreases k,
{
    if k > 0 {
        lemma_chain_in(t, r, x, (k - 1) as nat);
    }
}

/// In a sound table every chain ends at the root.
proof fn lemma_past_root(t: Table, r: i64, x: i64, k: nat, j: nat)
    requires
        sound(t, r),
        crate::table::up(t, x, k) == Some(r),
        j > k,
    ensures
        crate::table::up(t, x, j) is None,
{
    assert(crate::table::up(t, x, k + 1) is None);
    crate::table::lemma_up_ends(t, x, k + 1, j);
}

/// In a sound table no node has anything further below it than the allowed depth.
pub proof fn lemma_sound_levels(t: Table, r: i64, id: i64)
    requires
        sound(t, r),
    ensures
        !crate::walk::level_used(t, id, (MAX_DEPTH + 1) as nat),
{
    let n = (MAX_DEPTH + 1) as nat;
    if crate::walk::level_used(t, id, n) {
        let x = choose|x: i64| #[trigger] crate::table::up(t, x, n) == Some(id);
        crate::table::lemma_up_front(t, x, MAX_DEPTH as nat);
        assert(t.dom().contains(x));
        let k = choose|k: nat| k <= MAX_DEPTH && #[trigger] crate::table::up(t, x, k) == Some(r);
        lemma_past_root(t, r, x, k, n);
    }
}

/// In a sound table no node is below itself.
pub proof fn lemma_sound_acyclic(t: Table, r: i64, id: i64, c: nat)
    requires
        sound(t, r),
        c > 0,
    ensures
        crate::table::up(t, id, c) != Some(id),
{
    lemma_sound_levels(t, r, id);
    crate::walk::lemma_no_cycle(t, id, (MAX_DEPTH + 1) as nat, c);
}

/// The root of a sound table is its first root.
pub proof fn lemma_sound_root(t: Table, r: i64)
    requires
        sound(t, r),
    ensures
        crate::ops::root_of(t) == Some(r),
{
    assert(crate::ops::is_first_root(t, r)) by {
        assert(crate::table::sits_under(t, None, r));
    }
    let q = choose|q: i64| crate::ops::is_first_root(t, q);
    assert(crate::table::sits_under(t, None, q));
}

/// A table with the shape and the kinds of a sound one is sound.
proof fn lemma_sound_same_shape(a: Table, b: Table, r: i64)
    requires
        sound(a, r),
        crate::table::same_shape(a, b),
        forall|x: i64| #[trigger] a.dom().contains(x) ==> a[x].kind == b[x].kind,
    ensures
        sound(b, r),
{
    assert forall|x: i64| #[trigger] b.dom().contains(x) implies exists|k: nat|
        k <= MAX_DEPTH && #[trigger] crate::table::up(b, x, k) == Some(r) by {
        assert(a.dom().contains(x));
        let k = choose|k: nat| k <= MAX_DEPTH && #[trigger] crate::table::up(a, x, k) == Some(r);
        crate::table::lemma_up_same_shape(a, b, x, k);
        assert(crate::table::up(b, x, k) == Some(r));
    }
    assert(a.dom().contains(r));
    assert forall|x: i64| #[trigger] b.dom().contains(x) implies match b[x].parent {
        None => x == r,
        Some(p) => b.dom().contains(p) && b[p].kind == NodeKind::Folder,
    } by {
        assert(a.dom().contains(x));
        if a[x].parent is Some {
            assert(a.dom().contains(a[x].parent->0));
        }
    }
}

/// A chain that does not pass `id` does not depend on `id`'s parent link.
proof fn lemma_chain_same(a: Table, b: Table, id: i64, x: i64, k: nat)
    requires
        forall|y: i64| y != id ==> #[trigger] crate::table::parent_in(a, y)
            == crate::table::parent_in(b, y),
        forall|j: nat| j < k ==> #[trigger] crate::table::up(a, x, j) != Some(id),
    ensures
        crate::table::up(a, x, k) == crate::table::up(b, x, k),
    decreases k,
{
    if k > 0 {
        lemma_chain_same(a, b, id, x, (k - 1) as nat);
        assert(crate::table::up(a, x, (k - 1) as nat) != Some(id));
        if let Some(c) = crate::table::up(a, x, (k - 1) as nat) {
            assert(crate::table::parent_in(a, c) == crate::table::parent_in(b, c));
        }
    }
}

/// Creating a node keeps the table sound.
pub proof fn lemma_create_keeps_sound(
    t: Table,
    r: i64,
    parent: Option<i64>,
    id: i64,
    kind: NodeKind,
    title: Seq<char>,
    url: Option<Seq<char>>,
    now: i64,
)
    requires
        sound(t, r),
        crate::ops::place_error(t, parent) is None,
        crate::ops::is_new_id(t, id),
    ensures
        sound(crate::ops::with_new(t, parent, id, kind, title, url, now), r),
{
    let u = crate::ops::with_new(t, parent, id, kind, title, url, now);
    let p = crate::ops::target(t, parent)->0;
    assert(t.dom().contains(p));
    lemma_added_leaf(t, u, r, id, p);
}

/// A new leaf under a folder that is not at the deepest level keeps the table sound.
proof fn lemma_added_leaf(t: Table, u: Table, r: i64, id: i64, p: i64)
    requires
        sound(t, r),
        !t.dom().contains(id),
        t.dom().contains(p),
        t[p].kind == NodeKind::Folder,
        crate::table::up(t, p, MAX_DEPTH as nat) is None,
        u == t.insert(id, u[id]),
        u[id].parent == Some(p),
    ensures
        sound(u, r),
{
    assert(u.dom() =~= t.dom().insert(id));
    assert forall|x: i64| #[trigger] u.dom().contains(x) implies exists|k: nat|
        k <= MAX_DEPTH && #[trigger] crate::table::up(u, x, k) == Some(r) by {
        let y = if x == id {
            p
        } else {
            x
        };
        assert(t.dom().contains(y));
        let k = choose|k: nat| k <= MAX_DEPTH && #[trigger] crate::table::up(t, y, k) == Some(r);
        assert forall|j: nat| j < k implies #[trigger] crate::table::up(t, y, j) != Some(id) by {
            if crate::table::up(t, y, j) == Some(id) {
                lemma_chain_in(t, r, y, j);
            }
        }
        assert forall|z: i64| z != id implies #[trigger] crate::table::parent_in(t, z)
            == crate::table::parent_in(u, z) by {}
        lemma_chain_same(t, u, id, y, k);
        if x == id {
            crate::table::lemma_up_front(u, x, k);
            assert(k != MAX_DEPTH);
            assert(crate::table::up(u, x, k + 1) == Some(r));
        } else {
            assert(crate::table::up(u, x, k) == Some(r));
        }
    }
    assert forall|x: i64| #[trigger] u.dom().contains(x) implies match u[x].parent {
        None => x == r,
        Some(q) => u.dom().contains(q) && u[q].kind == NodeKind::Folder,
    } by {
        if x != id {
            assert(t.dom().contains(x));
        }
    }
}

/// Renaming a node keeps the table sound.
pub proof fn lemma_rename_keeps_sound(t: Table, r: i64, id: i64, title: Seq<char>, now: i64)
    requires
        sound(t, r),
        crate::ops::node_error(t, id) is None,
    ensures
        sound(crate::ops::renamed(t, id, title, now), r),
{
    let u = crate::ops::renamed(t, id, title, now);
    assert(u.dom() =~= t.dom());
    lemma_sound_same_shape(t, u, r);
}

/// The chain of `x` after `id` got the parent `under`.
proof fn lemma_relinked_chain(t: Table, u: Table, r: i64, id: i64, under: i64, x: i64) -> (k: nat)
    requires
        sound(t, r),
        t.dom().contains(under),
        t.dom().contains(x),
        !crate::ops::cyclic(t, id, under),
        !crate::ops::too_deep(t, id, under),
        u == t.insert(id, Entry { parent: Some(under), ..t[id] }),
    ensures
        k <= MAX_DEPTH,
        crate::table::up(u, x, k) == Some(r),
{
    assert forall|z: i64| z != id implies #[trigger] crate::table::parent_in(t, z)
        == crate::table::parent_in(u, z) by {}
    if exists|h: nat| crate::table::up(t, x, h) == Some(id) {
        let d = choose|d: nat| d <= MAX_DEPTH && #[trigger] crate::table::up(t, under, d) == Some(r);
        lemma_chain_same(t, u, id, under, d);
        let h = choose|h: nat| crate::table::up(t, x, h) == Some(id);
        assert forall|j: nat| j < h implies #[trigger] crate::table::up(t, x, j) != Some(id) by {
            if crate::table::up(t, x, j) == Some(id) {
                crate::table::lemma_up_add(t, x, j, (h - j) as nat);
                assert(j + (h - j) as nat == h);
                lemma_sound_acyclic(t, r, id, (h - j) as nat);
            }
        }
        lemma_chain_same(t, u, id, x, h);
        crate::table::lemma_up_front(u, id, d);
        crate::table::lemma_up_add(u, x, h, d + 1);
        assert(h + (d + 1) == h + d + 1);
        assert(crate::walk::level_used(t, id, h));
        h + d + 1
    } else {
        let k = choose|k: nat| k <= MAX_DEPTH && #[trigger] crate::table::up(t, x, k) == Some(r);
        lemma_chain_same(t, u, id, x, k);
        k
    }
}

proof fn lemma_relinked(t: Table, u: Table, r: i64, id: i64, under: i64)
    requires
        sound(t, r),
        t.dom().contains(id),
        t[id].parent is Some,
        t.dom().contains(under),
        t[under].kind == NodeKind::Folder,
        !crate::ops::cyclic(t, id, under),
        !crate::ops::too_deep(t, id, under),
        u == t.insert(id, Entry { parent: Some(under), ..t[id] }),
    ensures
        sound(u, r),
{
    assert(u.dom() =~= t.dom());
    assert forall|x: i64| #[trigger] u.dom().contains(x) implies exists|k: nat|
        k <= MAX_DEPTH && #[trigger] crate::table::up(u, x, k) == Some(r) by {
        let k = lemma_relinked_chain(t, u, r, id, under, x);
        assert(crate::table::up(u, x, k) == Some(r));
    }
    assert forall|x: i64| #[trigger] u.dom().contains(x) implies match u[x].parent {
        None => x == r,
        Some(p) => u.dom().contains(p) && u[p].kind == NodeKind::Folder,
    } by {
        assert(t.dom().contains(x));
    }
}

/// Moving a node keeps the table sound: the moved nodes hang under their new parent,
/// within the allowed depth, and no cycle comes about.
pub proof fn lemma_move_keeps_sound(
    t: Table,
    r: i64,
    id: i64,
    under: i64,
    position: Option<i64>,
    now: i64,
)
    requires
        sound(t, r),
        crate::ops::move_error(t, id, under) is None,
    ensures
        sound(crate::ops::moved(t, id, under, position, now), r),
{
    let u = t.insert(id, Entry { parent: Some(under), ..t[id] });
    let v = crate::ops::moved(t, id, under, position, now);
    lemma_relinked(t, u, r, id, under);
    assert(v.dom() =~= u.dom());
    lemma_sound_same_shape(u, v, r);
}

/// Deleting a node keeps the table sound: whatever stays still reaches the root.
pub proof fn lemma_delete_keeps_sound(t: Table, r: i64, id: i64)
    requires
        sound(t, r),
        crate::ops::node_error(t, id) is None,
    ensures
        sound(crate::ops::deleted(t, id), r),
{
    let gone = crate::table::subtree(t, id);
    let u = t.remove_keys(gone);
    let v = crate::ops::deleted(t, id);
    assert(u.dom() =~= t.dom().difference(gone));
    if gone.contains(r) {
        let k = choose|k: nat| crate::table::up(t, r, k) == Some(id);
        assert(crate::table::up(t, r, 0) == Some(r));
        if k > 0 {
            lemma_past_root(t, r, r, 0, k);
        }
    }
    assert forall|x: i64| #[trigger] u.dom().contains(x) implies exists|k: nat|
        k <= MAX_DEPTH && #[trigger] crate::table::up(u, x, k) == Some(r) by {
        assert(t.dom().contains(x));
        let k = choose|k: nat| k <= MAX_DEPTH && #[trigger] crate::table::up(t, x, k) == Some(r);
        lemma_stays(t, r, id, x, k);
        assert(crate::table::up(u, x, k) == Some(r));
    }
    assert forall|x: i64| #[trigger] u.dom().contains(x) implies match u[x].parent {
        None => x == r,
        Some(p) => u.dom().contains(p) && u[p].kind == NodeKind::Folder,
    } by {
        assert(t.dom().contains(x));
        if let Some(p) = t[x].parent {
            if gone.contains(p) {
                let k = choose|k: nat| crate::table::up(t, p, k) == Some(id);
                crate::table::lemma_up_front(t, x, k);
                assert(crate::table::up(t, x, k + 1) == Some(id));
            }
        }
    }
    assert(sound(u, r));
    assert(crate::table::same_shape(u, v)) by {
        assert(v.dom() =~= u.dom());
    }
    lemma_sound_same_shape(u, v, r);
}

/// The chain of a node that is not deleted stays what it was.
proof fn lemma_stays(t: Table, r: i64, id: i64, x: i64, k: nat)
    requires
        sound(t, r),
        t.dom().contains(x),
        !crate::table::subtree(t, id).contains(x),
    ensures
        crate::table::up(t.remove_keys(crate::table::subtree(t, id)), x, k) == crate::table::up(
            t,
            x,
            k,
        ),
    decreases k,
{
    let gone = crate::table::subtree(t, id);
    let u = t.remove_keys(gone);
    if k > 0 {
        lemma_stays(t, r, id, x, (k - 1) as nat);
        if let Some(c) = crate::table::up(t, x, (k - 1) as nat) {
            lemma_chain_in(t, r, x, (k - 1) as nat);
            if gone.contains(c) {
                let j = choose|j: nat| crate::table::up(t, c, j) == Some(id);
                crate::table::lemma_up_add(t, x, (k - 1) as nat, j);
                assert(crate::table::up(t, x, (k - 1) as nat + j) == Some(id));
            }
            assert(u.dom().contains(c));
        }
    }
}

/// The tree of a sound table can always be read, and it holds every node.
pub proof fn lemma_sound_tree(t: Table, r: i64)
    requires
        sound(t, r),
    ensures
        crate::ops::tree_error(t) is None,
        forall|n: crate::node::Node|
            n.id == r && #[trigger] crate::walk::shows_tree(t, n) ==> crate::walk::node_count(n)
                == t.dom().len(),
{
    lemma_sound_root(t, r);
    lemma_sound_levels(t, r, r);
    assert(crate::table::subtree(t, r) =~= t.dom());
    assert forall|n: crate::node::Node|
        n.id == r && #[trigger] crate::walk::shows_tree(t, n) implies crate::walk::node_count(n)
        == t.dom().len() by {
        crate::walk::lemma_tree_count(t, n, MAX_DEPTH as nat);
    }
}

/// Moving a node changes, of every other node, at most the position, and that only under
/// the folder that it leaves and the one that it comes to. Of the moved node the parent,
/// the position and the time of change change.
pub proof fn lemma_move_leaves_the_rest(
    t: Table,
    id: i64,
    under: i64,
    position: Option<i64>,
    now: i64,
    x: i64,
)
    requires
        crate::ops::move_error(t, id, under) is None,
        t.dom().contains(x),
    ensures
        ({
            let u = crate::ops::moved(t, id, under, position, now);
            let same_but_position = Entry { position: u[x].position, ..t[x] };
            &&& u.dom() == t.dom()
            &&& x == id ==> u[x] == (Entry {
                parent: Some(under),
                modified: now,
                ..same_but_position
            })
            &&& x != id ==> u[x] == same_but_position
            &&& x != id && t[x].parent != Some(under) && t[x].parent != t[id].parent ==> u[x] == t[x]
        }),
{
    let u = crate::ops::moved(t, id, under, position, now);
    assert(u.dom() =~= t.dom());
}

/// Deleting a node removes it and everything below it, and nothing else; of the nodes
/// that stay, at most the positions of its siblings change.
pub proof fn lemma_delete_leaves_the_rest(t: Table, id: i64, x: i64)
    requires
        crate::ops::node_error(t, id) is None,
        t.dom().contains(x),
    ensures
        ({
            let u = crate::ops::deleted(t, id);
            &&& u.dom().contains(x) <==> !crate::table::subtree(t, id).contains(x)
            &&& u.dom().contains(x) ==> u[x] == (Entry { position: u[x].position, ..t[x] })
            &&& u.dom().contains(x) && t[x].parent != t[id].parent ==> u[x] == t[x]
        }),
{
}

/// Nothing in the table is hidden.
pub open spec fn nothing_hidden(t: Table) -> bool {
    forall|x: i64| #[trigger] t.dom().contains(x) ==> !t[x].hidden
}

proof fn lemma_dump_rows_ok(t: Table, r: i64, s: Seq<RowView>, n: nat)
    requires
        sound(t, r),
        crate::load::is_dump(t, s),
        n <= s.len(),
    ensures
        crate::load::rows_defect(s, n) is None,
        crate::load::root_count(s, n) == (if exists|i: int| 0 <= i < n && (#[trigger] s[i]).id == r {
            1nat
        } else {
            0nat
        }),
    decreases n,
{
    if n > 0 {
        let j = (n - 1) as nat;
        lemma_dump_rows_ok(t, r, s, j);
        let x = s[j as int];
        assert(crate::load::has_id(s, x.id));
        assert(t.dom().contains(x.id));
        assert(crate::load::row_entry(x).parent == t[x.id].parent);
        if crate::load::has_id(s.take(j as int), x.id) {
            let k = crate::load::id_index(s.take(j as int), x.id);
            assert(s.take(j as int)[k].id == x.id);
            assert(s[k].id < s[j as int].id);
        }
        if x.id == r {
            if exists|i: int| 0 <= i < j && (#[trigger] s[i]).id == r {
                let i = choose|i: int| 0 <= i < j && (#[trigger] s[i]).id == r;
                assert(s[i].id < s[j as int].id);
            }
            assert(s[j as int].id == r);
        } else if exists|i: int| 0 <= i < n && (#[trigger] s[i]).id == r {
            let i = choose|i: int| 0 <= i < n && (#[trigger] s[i]).id == r;
            assert(i < j);
        }
    }
}

/// What a read gives back of a write: the dumped rows of a sound table load, and the
/// table that they give is the one that was dumped.
pub proof fn lemma_dump_loads(t: Table, r: i64, s: Seq<RowView>)
    requires
        sound(t, r),
        nothing_hidden(t),
        t.dom().len() <= MAX_ROWS,
        crate::load::is_dump(t, s),
    ensures
        crate::load::load_error(s) is None,
        crate::load::vault_table(s) == t,
{
    lemma_dump_rows_ok(t, r, s, s.len());
    assert(crate::load::has_id(s, r));
    let i = crate::load::id_index(s, r);
    assert(0 <= i < s.len() && s[i].id == r);
    crate::load::lemma_entries(s);
    assert(crate::load::vault_table(s) =~= t) by {
        assert forall|x: i64| #[trigger] t.dom().contains(x) implies crate::load::vault_table(s)[x]
            == t[x] by {
            assert(crate::load::has_id(s, x));
            let k = crate::load::id_index(s, x);
            assert(s[k].id == x);
            assert(crate::load::row_entry(s[k]) == (Entry { hidden: false, ..t[s[k].id] }));
        }
    }
    let ids = Seq::new(s.len(), |k: int| s[k].id);
    assert(ids.no_duplicates()) by {
        assert forall|a: int, b: int| 0 <= a < ids.len() && 0 <= b < ids.len() && a != b implies ids[a]
            != ids[b] by {
            if a < b {
                assert(s[a].id < s[b].id);
            } else {
                assert(s[b].id < s[a].id);
            }
        }
    }
    ids.unique_seq_to_set();
    assert(ids.to_set() =~= t.dom()) by {
        assert forall|x: i64| ids.to_set().contains(x) <==> t.dom().contains(x) by {
            if t.dom().contains(x) {
                assert(crate::load::has_id(s, x));
                assert(ids[crate::load::id_index(s, x)] == x);
            }
            if ids.to_set().contains(x) {
                let k = choose|k: int| 0 <= k < ids.len() && ids[k] == x;
                assert(s[k].id == x);
                assert(crate::load::has_id(s, x));
            }
        }
    }
    lemma_sound_root(t, r);
    lemma_sound_levels(t, r, r);
    assert(crate::table::subtree(t, r) =~= t.dom());
}

/// Rows that load form one tree: every node reaches the one root within the allowed
/// depth.
pub proof fn lemma_loaded_reaches(s: Seq<RowView>)
    requires
        crate::load::load_error(s) is None,
    ensures
        crate::ops::root_of(crate::load::vault_table(s)) is Some,
        reaches(crate::load::vault_table(s), crate::ops::root_of(crate::load::vault_table(s))->0),
{
    let t = crate::load::vault_table(s);
    crate::load::lemma_one_root(s);
    let r = crate::ops::root_of(t)->0;
    assert forall|x: i64| #[trigger] t.dom().contains(x) implies exists|k: nat|
        k <= MAX_DEPTH && #[trigger] crate::table::up(t, x, k) == Some(r) by {
        assert(crate::table::subtree(t, r).contains(x));
        let k = choose|k: nat| crate::table::up(t, x, k) == Some(r);
        if k > MAX_DEPTH {
            crate::walk::lemma_levels_closed(t, r, (MAX_DEPTH + 1) as nat, k);
            assert(crate::walk::level_used(t, r, k));
        }
    }
}

proof fn lemma_copied_sound(
    t: Table,
    r: i64,
    s: Seq<crate::migrate::LegacyView>,
    ids: Seq<i64>,
    k: nat,
)
    requires
        sound(t, r),
        contiguous(t),
        t.dom().len() + s.len() <= MAX_ROWS,
        crate::ops::next_position(t, r) + s.len() <= i64::MAX,
        ids.len() == s.len(),
        crate::migrate::ids_new(t, r, s, ids),
        k <= s.len(),
    ensures
        sound(crate::migrate::copied(t, r, s, ids, k), r),
        contiguous(crate::migrate::copied(t, r, s, ids, k)),
        crate::migrate::copied(t, r, s, ids, k).dom().len() == t.dom().len() + k,
        crate::table::kids(crate::migrate::copied(t, r, s, ids, k), Some(r)).len()
            == crate::table::kids(t, Some(r)).len() + k,
    decreases k,
{
    if k > 0 {
        let j = (k - 1) as nat;
        lemma_copied_sound(t, r, s, ids, j);
        let a = crate::migrate::copied(t, r, s, ids, j);
        let b = crate::migrate::copied(t, r, s, ids, k);
        let id = ids[j as int];
        assert(crate::ops::is_new_id(a, id)) by {
            reveal(crate::migrate::ids_new);
        }
        assert(b == a.insert(id, b[id]));
        assert(crate::table::up(a, r, 0) == Some(r));
        assert(crate::table::up(a, r, 1) is None);
        crate::table::lemma_up_ends(a, r, 1, MAX_DEPTH as nat);
        lemma_added_leaf(a, b, r, id, r);
        crate::order::lemma_next_is_count(t, r);
        crate::order::lemma_appended(a, b, r, id);
        let more = crate::table::kids(b, Some(r));
        let less = crate::table::kids(a, Some(r));
        assert(more =~= less.insert(id));
        assert(less.subset_of(a.dom()));
        vstd::set_lib::lemma_set_subset_finite(a.dom(), less);
    }
}

/// A migrated database is sound and numbered without gaps, whether it was empty or
/// already held a sound tree.
pub proof fn lemma_migrated_sound(
    t: Table,
    bookmarks: Option<Seq<crate::migrate::LegacyView>>,
    now: i64,
    u: Table,
) -> (r: i64)
    requires
        crate::migrate::migrated(t, bookmarks, now, u),
        contiguous(t),
        t.dom().finite(),
        t.dom().len() == 0 || exists|r: i64| sound(t, r),
    ensures
        sound(u, r),
        contiguous(u),
{
    let (t1, root) = choose|t1: Table, root: i64|
        {
            &&& #[trigger] crate::migrate::rooted_by(t, t1, root, now)
            &&& crate::migrate::copy_error(t1, root, bookmarks) is None
            &&& match bookmarks {
                Some(b) => exists|s: Seq<crate::migrate::LegacyView>| #[trigger]
                    crate::migrate::taken_in_order(b, s) && crate::migrate::copies(t1, root, s, u),
                None => u == t1,
            }
        };
    if t.dom().len() == 0 {
        assert(t.dom() =~= Set::empty());
        if let Some(q) = crate::ops::root_of(t) {
            assert(crate::ops::is_first_root(t, q));
            assert(crate::table::sits_under(t, None, q));
        }
        assert(t1.dom() =~= set![root]);
        assert(crate::table::up(t1, root, 0) == Some(root));
        assert(sound(t1, root));
        assert(contiguous(t1));
    } else {
        let r = choose|r: i64| sound(t, r);
        lemma_sound_root(t, r);
    }
    if let Some(b) = bookmarks {
        let s = choose|s: Seq<crate::migrate::LegacyView>| #[trigger]
            crate::migrate::taken_in_order(b, s) && crate::migrate::copies(t1, root, s, u);
        let ids = choose|ids: Seq<i64>|
            {
                &&& ids.len() == s.len()
                &&& crate::migrate::ids_new(t1, root, s, ids)
                &&& u == #[trigger] crate::migrate::copied(t1, root, s, ids, s.len())
            };
        broadcast use vstd::seq_lib::group_to_multiset_ensures;

        assert(s.len() == s.to_multiset().len() == b.to_multiset().len() == b.len());
        lemma_copied_sound(t1, root, s, ids, s.len());
    }
    root
}

} // verus!
