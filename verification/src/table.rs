//! The mathematical model of the node table: a finite map from ids to entries,
//! the parent chains and the sibling order that it spans.

use vstd::prelude::*;
use crate::node::NodeKind;

verus! {

/// Deepest allowed nesting; the root is at depth 0.
pub const MAX_DEPTH: i64 = 200;

/// What the table holds for one id.
#[verifier::ext_equal]
pub struct Entry {
    pub parent: Option<i64>,
    pub kind: NodeKind,
    pub title: Seq<char>,
    pub url: Option<Seq<char>>,
    pub position: i64,
    pub created: i64,
    pub modified: i64,
    pub hidden: bool,
}

/// The node table: its primary key to the rest of the row.
pub type Table = Map<i64, Entry>;

/// The parent of `x`, if `x` is in the table and has one.
pub open spec fn parent_in(t: Table, x: i64) -> Option<i64> {
    if t.dom().contains(x) {
        t[x].parent
    } else {
        None
    }
}

/// The id that is reached from `x` by following `k` parent links.
pub open spec fn up(t: Table, x: i64, k: nat) -> Option<i64>
    decreases k,
{
    if k == 0 {
        Some(x)
    } else {
        match up(t, x, (k - 1) as nat) {
            Some(c) => parent_in(t, c),
            None => None,
        }
    }
}

/// `x` is in the table and its parent link is `p` (`None`: `x` is a root).
pub open spec fn sits_under(t: Table, p: Option<i64>, x: i64) -> bool {
    t.dom().contains(x) && t[x].parent == p
}

/// The sibling order: by position, then by id.
pub open spec fn before(t: Table, a: i64, b: i64) -> bool {
    t[a].position < t[b].position || (t[a].position == t[b].position && a < b)
}

/// The ids directly under `p`.
pub open spec fn kids(t: Table, p: Option<i64>) -> Set<i64> {
    Set::new(|x: i64| sits_under(t, p, x))
}

/// How many of the ids under `p` stand before `x`.
pub open spec fn rank(t: Table, p: Option<i64>, x: i64) -> nat {
    Set::new(|y: i64| sits_under(t, p, y) && before(t, y, x)).len()
}

/// `s` lists exactly the ids under `p`, in sibling order.
pub open spec fn in_order(t: Table, p: Option<i64>, s: Seq<i64>) -> bool {
    &&& forall|i: int, j: int|
        #![trigger s[i], s[j]]
        0 <= i < j < s.len() ==> before(t, s[i], s[j])
    &&& forall|x: i64| s.contains(x) <==> sits_under(t, p, x)
}

/// `x` together with everything below it.
pub open spec fn subtree(t: Table, id: i64) -> Set<i64> {
    Set::new(|x: i64| t.dom().contains(x) && exists|k: nat| up(t, x, k) == Some(id))
}

/// The two tables hold the same ids with the same parent links.
pub open spec fn same_shape(a: Table, b: Table) -> bool {
    &&& a.dom() == b.dom()
    &&& forall|x: i64| #[trigger] a.dom().contains(x) ==> a[x].parent == b[x].parent
}

/// Only positions differ, and only of ids under `p`.
pub open spec fn reindexed(t: Table, p: i64) -> Table {
    Map::new(
        |x: i64| t.dom().contains(x),
        |x: i64|
            if sits_under(t, Some(p), x) {
                Entry { position: rank(t, Some(p), x) as i64, ..t[x] }
            } else {
                t[x]
            },
    )
}

pub proof fn lemma_up_front(t: Table, x: i64, k: nat)
    ensures
        up(t, x, k + 1) == (match parent_in(t, x) {
            Some(p) => up(t, p, k),
            None => None,
        }),
    decreases k,
{
    if k > 0 {
        lemma_up_front(t, x, (k - 1) as nat);
    } else {
        assert(up(t, x, 1) == parent_in(t, x)) by {
            assert(up(t, x, 0) == Some(x));
        }
    }
}

pub proof fn lemma_up_add(t: Table, x: i64, j: nat, k: nat)
    ensures
        up(t, x, j + k) == (match up(t, x, j) {
            Some(c) => up(t, c, k),
            None => None,
        }),
    decreases k,
{
    if k > 0 {
        lemma_up_add(t, x, j, (k - 1) as nat);
        assert((j + k - 1) as nat == j + (k - 1) as nat);
    }
}

/// A chain that has ended stays ended.
pub proof fn lemma_up_ends(t: Table, x: i64, j: nat, k: nat)
    requires
        j <= k,
        up(t, x, j) is None,
    ensures
        up(t, x, k) is None,
    decreases k,
{
    if j < k {
        lemma_up_ends(t, x, j, (k - 1) as nat);
    }
}

pub proof fn lemma_up_same_shape(a: Table, b: Table, x: i64, k: nat)
    requires
        same_shape(a, b),
    ensures
        up(a, x, k) == up(b, x, k),
    decreases k,
{
    if k > 0 {
        lemma_up_same_shape(a, b, x, (k - 1) as nat);
    }
}

/// Where `a` belongs in a list in sibling order.
proof fn lemma_split(t: Table, s: Seq<i64>, a: i64) -> (j: int)
    requires
        forall|i: int, k: int|
            #![trigger s[i], s[k]]
            0 <= i < k < s.len() ==> before(t, s[i], s[k]),
        !s.contains(a),
    ensures
        0 <= j <= s.len(),
        forall|i: int| 0 <= i < j ==> before(t, #[trigger] s[i], a),
        forall|i: int| j <= i < s.len() ==> before(t, a, #[trigger] s[i]),
    decreases s.len(),
{
    if s.len() == 0 {
        0
    } else if before(t, s.last(), a) {
        assert forall|i: int| 0 <= i < s.len() implies before(t, #[trigger] s[i], a) by {
            if i < s.len() - 1 {
                assert(before(t, s[i], s[s.len() - 1]));
            }
        }
        s.len() as int
    } else {
        assert(s.last() != a);
        assert forall|x: i64| s.drop_last().contains(x) implies s.contains(x) by {
            let i = choose|i: int| 0 <= i < s.drop_last().len() && s.drop_last()[i] == x;
            assert(s[i] == x);
        }
        let j = lemma_split(t, s.drop_last(), a);
        assert forall|i: int| 0 <= i < j implies before(t, #[trigger] s[i], a) by {
            assert(s.drop_last()[i] == s[i]);
        }
        assert forall|i: int| j <= i < s.len() implies before(t, a, #[trigger] s[i]) by {
            if i < s.len() - 1 {
                assert(s.drop_last()[i] == s[i]);
            }
        }
        j
    }
}

/// Any finite set of ids can be listed in sibling order.
proof fn lemma_list_set(t: Table, set: Set<i64>) -> (s: Seq<i64>)
    requires
        set.finite(),
    ensures
        forall|i: int, j: int|
        #![trigger s[i], s[j]]
        0 <= i < j < s.len() ==> before(t, s[i], s[j]),
        forall|x: i64| s.contains(x) <==> set.contains(x),
        s.len() == set.len(),
    decreases set.len(),
{
    if set.len() == 0 {
        assert(set =~= Set::empty());
        Seq::empty()
    } else {
        let a = set.choose();
        let q = lemma_list_set(t, set.remove(a));
        let j = lemma_split(t, q, a);
        let s = q.insert(j, a);
        assert forall|i: int, k: int|
            #![trigger s[i], s[k]]
            0 <= i < k < s.len() implies before(t, s[i], s[k]) by {
            let x = if i < j { i } else { i - 1 };
            let y = if k < j { k } else { k - 1 };
            if i != j && k != j {
                assert(s[i] == q[x] && s[k] == q[y]);
            } else if i == j {
                assert(s[k] == q[y]);
            } else {
                assert(s[i] == q[x]);
            }
        }
        assert forall|x: i64| s.contains(x) <==> set.contains(x) by {
            if set.contains(x) {
                if x == a {
                    assert(s[j] == x);
                } else {
                    assert(q.contains(x));
                    let i = choose|i: int| 0 <= i < q.len() && q[i] == x;
                    assert(s[if i < j { i } else { i + 1 }] == x);
                }
            }
            if s.contains(x) {
                let i = choose|i: int| 0 <= i < s.len() && s[i] == x;
                if i != j {
                    assert(q[if i < j { i } else { i - 1 }] == x);
                    assert(q.contains(x));
                }
            }
        }
        s
    }
}

/// The ids under `p` can be listed in sibling order.
pub proof fn lemma_order_exists(t: Table, p: Option<i64>) -> (s: Seq<i64>)
    requires
        t.dom().finite(),
    ensures
        in_order(t, p, s),
        s.len() == kids(t, p).len(),
        kids(t, p).finite(),
{
    assert(kids(t, p).subset_of(t.dom()));
    vstd::set_lib::lemma_set_subset_finite(t.dom(), kids(t, p));
    lemma_list_set(t, kids(t, p))
}

/// In sibling order, the index of an id is its rank.
pub proof fn lemma_rank_is_index(t: Table, p: Option<i64>, s: Seq<i64>, i: int)
    requires
        in_order(t, p, s),
        0 <= i < s.len(),
    ensures
        rank(t, p, s[i]) == i,
{
    let earlier = Set::new(|y: i64| sits_under(t, p, y) && before(t, y, s[i]));
    let q = s.take(i);
    assert(q.no_duplicates());
    q.unique_seq_to_set();
    assert(earlier =~= q.to_set()) by {
        assert forall|y: i64| earlier.contains(y) implies q.to_set().contains(y) by {
            assert(s.contains(y));
            let k = choose|k: int| 0 <= k < s.len() && s[k] == y;
            if k >= i {
                assert(k > i ==> before(t, s[i], s[k]));
            }
            assert(q[k] == y);
        }
        assert forall|y: i64| q.to_set().contains(y) implies earlier.contains(y) by {
            let k = choose|k: int| 0 <= k < q.len() && q[k] == y;
            assert(s[k] == y);
            assert(s.contains(y));
        }
    }
}

/// A list in sibling order has no repetition, and its length is the number of
/// ids under `p`.
pub proof fn lemma_order_len(t: Table, p: Option<i64>, s: Seq<i64>)
    requires
        in_order(t, p, s),
    ensures
        s.no_duplicates(),
        s.to_set() == kids(t, p),
        s.len() == kids(t, p).len(),
        kids(t, p).finite(),
{
    assert(s.no_duplicates());
    s.unique_seq_to_set();
    assert(s.to_set() =~= kids(t, p)) by {
        assert forall|x: i64| s.to_set().contains(x) <==> kids(t, p).contains(x) by {
            assert(s.to_set().contains(x) <==> s.contains(x));
        }
    }
}

/// The list in sibling order is determined by the table.
pub proof fn lemma_order_unique(t: Table, p: Option<i64>, a: Seq<i64>, b: Seq<i64>)
    requires
        in_order(t, p, a),
        in_order(t, p, b),
    ensures
        a == b,
{
    lemma_order_len(t, p, a);
    lemma_order_len(t, p, b);
    assert forall|i: int| 0 <= i < a.len() implies a[i] == b[i] by {
        assert(a.contains(a[i]));
        assert(b.contains(a[i]));
        let k = choose|k: int| 0 <= k < b.len() && b[k] == a[i];
        lemma_rank_is_index(t, p, a, i);
        lemma_rank_is_index(t, p, b, k);
    }
    assert(a =~= b);
}

} // verus!
